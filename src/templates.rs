use vstd::prelude::*;

use crate::example_config::{ConfigView, OptionsView, RunnerOptions, TemplateMap};

verus! {

/// The views of a list of configuration entries.
pub open spec fn options_view(s: Seq<RunnerOptions>) -> Seq<OptionsView> {
    s.map_values(|o: RunnerOptions| o@)
}

/// Run configuration declared for the whole workspace.
#[derive(Clone, Debug, Default)]
pub struct WorkspaceExampleRunnerConfig {
    pub templates: TemplateMap,
    pub default: Vec<RunnerOptions>,
}

/// The mathematical value of [`WorkspaceExampleRunnerConfig`].
pub ghost struct WorkspaceConfigView {
    pub templates: Map<Seq<char>, ConfigView>,
    pub default: Seq<OptionsView>,
}

impl View for WorkspaceExampleRunnerConfig {
    type V = WorkspaceConfigView;

    open spec fn view(&self) -> WorkspaceConfigView {
        WorkspaceConfigView { templates: self.templates@, default: options_view(self.default@) }
    }
}

/// Run configuration declared for one package.
#[derive(Clone, Debug, Default)]
pub struct PackageExampleRunnerConfig {
    pub templates: TemplateMap,
    pub extend_workspace_defaults: bool,
    pub default: Vec<RunnerOptions>,
}

/// The mathematical value of [`PackageExampleRunnerConfig`].
pub ghost struct PackageConfigView {
    pub templates: Map<Seq<char>, ConfigView>,
    pub extend_workspace_defaults: bool,
    pub default: Seq<OptionsView>,
}

impl View for PackageExampleRunnerConfig {
    type V = PackageConfigView;

    open spec fn view(&self) -> PackageConfigView {
        PackageConfigView {
            templates: self.templates@,
            extend_workspace_defaults: self.extend_workspace_defaults,
            default: options_view(self.default@),
        }
    }
}

} // verus!
