//! The dinit side: service descriptions, warnings and the result of a
//! conversion.

use vstd::prelude::*;

verus! {

/// The dinit service type.
#[derive(Debug, Clone, Copy, PartialEq, Eq, Structural)]
pub enum DinitType {
    Process,
    BgProcess,
    Scripted,
}

/// The dinit restart behaviour.
#[derive(Debug, Clone, Copy, PartialEq, Eq, Structural)]
pub enum RestartPolicy {
    Never,
    Always,
    OnFailure,
}

/// How serious a conversion note is.
#[derive(Debug, Clone, Copy, PartialEq, Eq, Structural)]
pub enum Severity {
    Info,
    Warn,
    Error,
}

/// A note about a directive that was converted lossily or skipped.
#[derive(Debug, Clone)]
pub struct Warning {
    pub directive: String,
    pub message: String,
    pub severity: Severity,
}

pub struct WarningView {
    pub directive: Seq<char>,
    pub message: Seq<char>,
    pub severity: Severity,
}

impl View for Warning {
    type V = WarningView;

    open spec fn view(&self) -> WarningView {
        WarningView { directive: self.directive@, message: self.message@, severity: self.severity }
    }
}

pub open spec fn warning(directive: Seq<char>, message: Seq<char>, severity: Severity) -> WarningView {
    WarningView { directive, message, severity }
}

pub open spec fn warnings_view(ws: Seq<Warning>) -> Seq<WarningView> {
    ws.map_values(|w: Warning| w@)
}

/// Appends a warning.
pub fn push_warning(ws: &mut Vec<Warning>, directive: String, message: String, severity: Severity)
    ensures
        warnings_view(final(ws)@) == warnings_view(old(ws)@).push(
            warning(directive@, message@, severity),
        ),
{
    let ghost before = ws@;
    ws.push(Warning { directive, message, severity });
    assert(warnings_view(ws@) =~= warnings_view(before).push(warning(directive@, message@, severity)));
}

/// One dinit service description. Paths are kept as text. `restart_delay`
/// holds the `RestartSec=` value as a decimal floating-point literal.
#[derive(Debug, Clone)]
pub struct DinitService {
    pub name: String,
    pub source_path: String,
    pub service_type: DinitType,
    pub command: Option<String>,
    pub stop_command: Option<String>,
    pub user: Option<String>,
    pub group: Option<String>,
    pub working_dir: Option<String>,
    pub env_files: Vec<String>,
    pub pid_file: Option<String>,
    pub restart: RestartPolicy,
    pub smooth_recovery: bool,
    pub restart_delay: Option<String>,
    pub depends_on: Vec<String>,
    pub depends_ms: Vec<String>,
    pub waits_for: Vec<String>,
    pub logfile: Option<String>,
}

pub struct ServiceView {
    pub name: Seq<char>,
    pub source_path: Seq<char>,
    pub service_type: DinitType,
    pub command: Option<Seq<char>>,
    pub stop_command: Option<Seq<char>>,
    pub user: Option<Seq<char>>,
    pub group: Option<Seq<char>>,
    pub working_dir: Option<Seq<char>>,
    pub env_files: Seq<Seq<char>>,
    pub pid_file: Option<Seq<char>>,
    pub restart: RestartPolicy,
    pub smooth_recovery: bool,
    pub restart_delay: Option<Seq<char>>,
    pub depends_on: Seq<Seq<char>>,
    pub depends_ms: Seq<Seq<char>>,
    pub waits_for: Seq<Seq<char>>,
    pub logfile: Option<Seq<char>>,
}

impl View for DinitService {
    type V = ServiceView;

    open spec fn view(&self) -> ServiceView {
        ServiceView {
            name: self.name@,
            source_path: self.source_path@,
            service_type: self.service_type,
            command: self.command.deep_view(),
            stop_command: self.stop_command.deep_view(),
            user: self.user.deep_view(),
            group: self.group.deep_view(),
            working_dir: self.working_dir.deep_view(),
            env_files: self.env_files.deep_view(),
            pid_file: self.pid_file.deep_view(),
            restart: self.restart,
            smooth_recovery: self.smooth_recovery,
            restart_delay: self.restart_delay.deep_view(),
            depends_on: self.depends_on.deep_view(),
            depends_ms: self.depends_ms.deep_view(),
            waits_for: self.waits_for.deep_view(),
            logfile: self.logfile.deep_view(),
        }
    }
}

pub open spec fn opt_service_view(s: Option<DinitService>) -> Option<ServiceView> {
    match s {
        Some(x) => Some(x@),
        None => None,
    }
}

/// Everything one conversion produces.
#[derive(Debug)]
pub struct ConversionResult {
    pub main_service: DinitService,
    pub pre_service: Option<DinitService>,
    pub post_service: Option<DinitService>,
    pub pre_script: Option<String>,
    pub post_script: Option<String>,
    pub stop_script: Option<String>,
    pub env_file_content: Option<String>,
    /// Shell wrapper script content for env-files whose quoting dinit cannot
    /// read; the converter in this library never needs one and leaves it
    /// `None`.
    pub env_wrapper_script: Option<String>,
    pub warnings: Vec<Warning>,
    pub should_enable: bool,
}

pub struct ResultView {
    pub main_service: ServiceView,
    pub pre_service: Option<ServiceView>,
    pub post_service: Option<ServiceView>,
    pub pre_script: Option<Seq<char>>,
    pub post_script: Option<Seq<char>>,
    pub stop_script: Option<Seq<char>>,
    pub env_file_content: Option<Seq<char>>,
    pub env_wrapper_script: Option<Seq<char>>,
    pub warnings: Seq<WarningView>,
    pub should_enable: bool,
}

impl View for ConversionResult {
    type V = ResultView;

    open spec fn view(&self) -> ResultView {
        ResultView {
            main_service: self.main_service@,
            pre_service: opt_service_view(self.pre_service),
            post_service: opt_service_view(self.post_service),
            pre_script: self.pre_script.deep_view(),
            post_script: self.post_script.deep_view(),
            stop_script: self.stop_script.deep_view(),
            env_file_content: self.env_file_content.deep_view(),
            env_wrapper_script: self.env_wrapper_script.deep_view(),
            warnings: warnings_view(self.warnings@),
            should_enable: self.should_enable,
        }
    }
}

} // verus!
