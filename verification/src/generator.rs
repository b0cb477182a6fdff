//! Writing a dinit service description as text.

use vstd::prelude::*;

use crate::model::{DinitService, DinitType, RestartPolicy, ServiceView};
use crate::text::{push_all, push_str, string_of};

verus! {

pub open spec fn dinit_type_word(t: DinitType) -> Seq<char> {
    match t {
        DinitType::Process => "process"@,
        DinitType::BgProcess => "bgprocess"@,
        DinitType::Scripted => "scripted"@,
    }
}

/// `key = value` and a newline.
pub open spec fn setting(key: Seq<char>, value: Seq<char>) -> Seq<char> {
    key + " = "@ + value + "\n"@
}

pub open spec fn opt_setting(key: Seq<char>, value: Option<Seq<char>>) -> Seq<char> {
    match value {
        Some(v) => setting(key, v),
        None => seq![],
    }
}

/// One `key = value` line per value, in order.
pub open spec fn settings(key: Seq<char>, values: Seq<Seq<char>>) -> Seq<char>
    decreases values.len(),
{
    if values.len() == 0 {
        seq![]
    } else {
        settings(key, values.drop_last()) + setting(key, values.last())
    }
}

/// `run-as = user:group`, `run-as = user` or `run-as = :group`.
pub open spec fn run_as(user: Option<Seq<char>>, group: Option<Seq<char>>) -> Seq<char> {
    match (user, group) {
        (Some(u), Some(g)) => setting("run-as"@, u + ":"@ + g),
        (Some(u), None) => setting("run-as"@, u),
        (None, Some(g)) => setting("run-as"@, ":"@ + g),
        (None, None) => seq![],
    }
}

/// The restart line; `Never` is dinit's default and is left out.
pub open spec fn restart_setting(r: RestartPolicy) -> Seq<char> {
    match r {
        RestartPolicy::Never => seq![],
        RestartPolicy::Always => "restart = true\n"@,
        RestartPolicy::OnFailure => "restart = on-failure\n"@,
    }
}

/// The provenance comment and the `type =` line that open a service file.
pub open spec fn preamble(s: ServiceView) -> Seq<char> {
    "# Generated by sd2dinit from "@ + s.source_path + "\n"@ + setting("type"@, dinit_type_word(s.service_type))
}

/// The settings after the type line: one line per setting that has a value.
pub open spec fn body_settings(s: ServiceView, delay: Option<Seq<char>>) -> Seq<char> {
    opt_setting("command"@, s.command) + opt_setting("stop-command"@, s.stop_command) + run_as(
        s.user,
        s.group,
    ) + opt_setting("working-dir"@, s.working_dir) + opt_setting("logfile"@, s.logfile)
        + opt_setting("pid-file"@, s.pid_file) + settings("env-file"@, s.env_files)
        + restart_setting(s.restart) + (if s.smooth_recovery {
        "smooth-recovery = true\n"@
    } else {
        seq![]
    }) + opt_setting("restart-delay"@, delay) + settings("depends-on"@, s.depends_on) + settings(
        "depends-ms"@,
        s.depends_ms,
    ) + settings("waits-for"@, s.waits_for)
}

/// The text of a service description; `delay` is the restart delay as
/// dinit should read it.
pub open spec fn generated(s: ServiceView, delay: Option<Seq<char>>) -> Seq<char> {
    preamble(s) + body_settings(s, delay)
}

fn push_setting(out: &mut Vec<char>, key: &str, value: &str)
    ensures
        final(out)@ == old(out)@ + setting(key@, value@),
{
    let ghost o = out@;
    push_str(out, key);
    push_str(out, " = ");
    push_str(out, value);
    push_str(out, "\n");
    assert(out@ =~= o + setting(key@, value@));
}

fn push_opt_setting(out: &mut Vec<char>, key: &str, value: &Option<String>)
    ensures
        final(out)@ == old(out)@ + opt_setting(key@, value.deep_view()),
{
    match value {
        Some(v) => push_setting(out, key, v.as_str()),
        None => {
            assert(out@ + Seq::<char>::empty() =~= out@);
        },
    }
}

fn push_settings(out: &mut Vec<char>, key: &str, values: &Vec<String>)
    ensures
        final(out)@ == old(out)@ + settings(key@, values.deep_view()),
{
    let ghost o = out@;
    let mut i: usize = 0;
    assert(values.deep_view().take(0) =~= Seq::<Seq<char>>::empty());
    assert(o + Seq::<char>::empty() =~= o);
    while i < values.len()
        invariant
            i <= values.len(),
            out@ == o + settings(key@, values.deep_view().take(i as int)),
        decreases values.len() - i,
    {
        let ghost before = out@;
        push_setting(out, key, values[i].as_str());
        assert(values.deep_view().take(i + 1).drop_last() =~= values.deep_view().take(i as int));
        assert(values.deep_view()[i as int] == values@[i as int]@);
        assert(out@ =~= o + settings(key@, values.deep_view().take(i + 1)));
        i = i + 1;
    }
    assert(values.deep_view().take(values.len() as int) =~= values.deep_view());
}

/// Writes `service` in dinit's service-file format: a provenance comment,
/// the type, and one line per setting that has a value; `restart =` is left
/// out for `Never`, and `restart_delay` (the restart delay as dinit should
/// read it) gives the `restart-delay` line.
pub fn generate(service: &DinitService, restart_delay: Option<&str>) -> (r: String)
    ensures
        r@ == generated(service@, restart_delay.deep_view()),
{
    let mut out: Vec<char> = Vec::new();
    push_str(&mut out, "# Generated by sd2dinit from ");
    push_str(&mut out, service.source_path.as_str());
    push_str(&mut out, "\n");
    let t = match service.service_type {
        DinitType::Process => "process",
        DinitType::BgProcess => "bgprocess",
        DinitType::Scripted => "scripted",
    };
    push_setting(&mut out, "type", t);
    let ghost pre = out@;
    assert(pre =~= preamble(service@));
    let mut body: Vec<char> = Vec::new();
    assert(body@ =~= Seq::<char>::empty());
    push_opt_setting(&mut body, "command", &service.command);
    push_opt_setting(&mut body, "stop-command", &service.stop_command);
    let ghost before_run_as = body@;
    match (&service.user, &service.group) {
        (Some(u), Some(g)) => {
            let mut v: Vec<char> = Vec::new();
            push_str(&mut v, u.as_str());
            push_str(&mut v, ":");
            push_str(&mut v, g.as_str());
            push_setting(&mut body, "run-as", string_of(&v).as_str());
        },
        (Some(u), None) => push_setting(&mut body, "run-as", u.as_str()),
        (None, Some(g)) => {
            let mut v: Vec<char> = Vec::new();
            push_str(&mut v, ":");
            push_str(&mut v, g.as_str());
            push_setting(&mut body, "run-as", string_of(&v).as_str());
        },
        (None, None) => {
            assert(body@ + Seq::<char>::empty() =~= body@);
        },
    }
    assert(body@ == before_run_as + run_as(service.user.deep_view(), service.group.deep_view()));
    push_opt_setting(&mut body, "working-dir", &service.working_dir);
    push_opt_setting(&mut body, "logfile", &service.logfile);
    push_opt_setting(&mut body, "pid-file", &service.pid_file);
    push_settings(&mut body, "env-file", &service.env_files);
    let ghost before_restart = body@;
    match service.restart {
        RestartPolicy::Never => {
            assert(body@ + Seq::<char>::empty() =~= body@);
        },
        RestartPolicy::Always => push_str(&mut body, "restart = true\n"),
        RestartPolicy::OnFailure => push_str(&mut body, "restart = on-failure\n"),
    }
    let ghost before_smooth = body@;
    if service.smooth_recovery {
        push_str(&mut body, "smooth-recovery = true\n");
    } else {
        assert(body@ + Seq::<char>::empty() =~= body@);
    }
    let ghost before_delay = body@;
    match restart_delay {
        Some(d) => push_setting(&mut body, "restart-delay", d),
        None => {
            assert(body@ + Seq::<char>::empty() =~= body@);
        },
    }
    push_settings(&mut body, "depends-on", &service.depends_on);
    push_settings(&mut body, "depends-ms", &service.depends_ms);
    push_settings(&mut body, "waits-for", &service.waits_for);
    assert(body@ =~= body_settings(service@, restart_delay.deep_view()));
    push_all(&mut out, &body);
    string_of(&out)
}

} // verus!
