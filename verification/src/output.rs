//! The files a conversion leaves in the output directory, and the exit
//! status it reports.

use vstd::prelude::*;

use crate::generator::{generate, generated};
use crate::model::{ConversionResult, DinitService, ResultView, ServiceView};
use crate::text::{push_str, string_of};

verus! {

/// What a generated file is, which decides how it is written (scripts are
/// made executable).
#[derive(Debug, Clone, Copy, PartialEq, Eq, Structural)]
pub enum OutputKind {
    Service,
    Script,
    EnvFile,
}

/// One generated file: its name in the output directory and its content.
#[derive(Debug, Clone)]
pub struct OutputFile {
    pub name: String,
    pub content: String,
    pub kind: OutputKind,
}

pub struct OutputFileView {
    pub name: Seq<char>,
    pub content: Seq<char>,
    pub kind: OutputKind,
}

impl View for OutputFile {
    type V = OutputFileView;

    open spec fn view(&self) -> OutputFileView {
        OutputFileView { name: self.name@, content: self.content@, kind: self.kind }
    }
}

pub open spec fn output_files_view(fs: Seq<OutputFile>) -> Seq<OutputFileView> {
    fs.map_values(|f: OutputFile| f@)
}

/// The file of a service, named after it.
pub open spec fn service_file(s: ServiceView, delay: Option<Seq<char>>) -> OutputFileView {
    OutputFileView { name: s.name, content: generated(s, delay), kind: OutputKind::Service }
}

pub open spec fn opt_service_file(s: Option<ServiceView>, delay: Option<Seq<char>>) -> Seq<
    OutputFileView,
> {
    match s {
        Some(v) => seq![service_file(v, delay)],
        None => seq![],
    }
}

pub open spec fn opt_text_file(name: Seq<char>, content: Option<Seq<char>>, kind: OutputKind) -> Seq<
    OutputFileView,
> {
    match content {
        Some(c) => seq![OutputFileView { name, content: c, kind }],
        None => seq![],
    }
}

/// The files of a conversion, in the order they are written: the main
/// service, the pre- and post-start services, the `-pre.sh`, `-post.sh` and
/// `-stop.sh` scripts, and the `.env` file, each where there is one.
pub open spec fn result_files(
    r: ResultView,
    main_delay: Option<Seq<char>>,
    pre_delay: Option<Seq<char>>,
    post_delay: Option<Seq<char>>,
) -> Seq<OutputFileView> {
    let name = r.main_service.name;
    seq![service_file(r.main_service, main_delay)] + opt_service_file(r.pre_service, pre_delay)
        + opt_service_file(r.post_service, post_delay) + opt_text_file(
        name + "-pre.sh"@,
        r.pre_script,
        OutputKind::Script,
    ) + opt_text_file(name + "-post.sh"@, r.post_script, OutputKind::Script) + opt_text_file(
        name + "-stop.sh"@,
        r.stop_script,
        OutputKind::Script,
    ) + opt_text_file(name + ".env"@, r.env_file_content, OutputKind::EnvFile)
}

fn push_service_file(out: &mut Vec<OutputFile>, s: &Option<DinitService>, delay: Option<&str>)
    ensures
        output_files_view(final(out)@) == output_files_view(old(out)@) + opt_service_file(
            crate::model::opt_service_view(*s),
            delay.deep_view(),
        ),
{
    let ghost before = out@;
    match s {
        Some(v) => {
            out.push(OutputFile { name: v.name.clone(), content: generate(v, delay), kind: OutputKind::Service });
        },
        None => {},
    }
    assert(output_files_view(out@) =~= output_files_view(before) + opt_service_file(
        crate::model::opt_service_view(*s),
        delay.deep_view(),
    ));
}

fn push_text_file(
    out: &mut Vec<OutputFile>,
    service: &String,
    suffix: &str,
    content: &Option<String>,
    kind: OutputKind,
)
    ensures
        output_files_view(final(out)@) == output_files_view(old(out)@) + opt_text_file(
            service@ + suffix@,
            content.deep_view(),
            kind,
        ),
{
    let ghost before = out@;
    match content {
        Some(c) => {
            let mut n: Vec<char> = Vec::new();
            push_str(&mut n, service.as_str());
            push_str(&mut n, suffix);
            out.push(OutputFile { name: string_of(&n), content: c.clone(), kind });
        },
        None => {},
    }
    assert(output_files_view(out@) =~= output_files_view(before) + opt_text_file(
        service@ + suffix@,
        content.deep_view(),
        kind,
    ));
}

/// The files a conversion produces. `main_delay`, `pre_delay` and
/// `post_delay` are the restart delays of the three services as dinit
/// should read them.
pub fn output_files(
    result: &ConversionResult,
    main_delay: Option<&str>,
    pre_delay: Option<&str>,
    post_delay: Option<&str>,
) -> (r: Vec<OutputFile>)
    ensures
        output_files_view(r@) == result_files(
            result@,
            main_delay.deep_view(),
            pre_delay.deep_view(),
            post_delay.deep_view(),
        ),
{
    let main = &result.main_service;
    let mut out: Vec<OutputFile> = Vec::new();
    out.push(
        OutputFile { name: main.name.clone(), content: generate(main, main_delay), kind: OutputKind::Service },
    );
    assert(output_files_view(out@) =~= seq![service_file(result@.main_service, main_delay.deep_view())]);
    push_service_file(&mut out, &result.pre_service, pre_delay);
    push_service_file(&mut out, &result.post_service, post_delay);
    push_text_file(&mut out, &main.name, "-pre.sh", &result.pre_script, OutputKind::Script);
    push_text_file(&mut out, &main.name, "-post.sh", &result.post_script, OutputKind::Script);
    push_text_file(&mut out, &main.name, "-stop.sh", &result.stop_script, OutputKind::Script);
    push_text_file(&mut out, &main.name, ".env", &result.env_file_content, OutputKind::EnvFile);
    out
}

/// The exit status of a successful conversion: 1 when it gave warnings,
/// else 0 (a failed one exits with 2).
pub fn exit_status(result: &ConversionResult) -> (r: i32)
    ensures
        r == (if result@.warnings.len() > 0 { 1int } else { 0int }),
{
    if result.warnings.len() > 0 {
        1
    } else {
        0
    }
}

} // verus!
