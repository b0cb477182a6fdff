//! What the converter makes of particular directives, stated for all
//! inputs in the words of the systemd and dinit documentation: the stop
//! command, dependency names, `$VAR` arguments, the service type line and
//! the restart policy.

use vstd::prelude::*;

use crate::config::{output_dir_for, ConfigView};
use crate::converter::{
    converted, env_refs, resolve_dependency, restart_mapping, restart_warnings, service_name,
    service_value, service_values, strip_unit_suffix, words, words_acc,
};
use crate::generator::generated;
use crate::model::{DinitType, RestartPolicy, ServiceView, WarningView};
use crate::parser::UnitView;
use crate::text::{contains_char, ends_with, is_alphanumeric, is_ws, trim, trim_end, trim_start};

verus! {

// ---------------------------------------------------------------------
// ExecStop= and ExecStopPost=
// ---------------------------------------------------------------------

/// The stop command of a converted unit: without `ExecStopPost=` it is the
/// unit's `ExecStop=` itself and no stop script is written; with both, a
/// stop script runs the `ExecStop=` command first and the main service
/// stops through it; with `ExecStopPost=` alone there is neither.
pub proof fn law_stop_command(u: UnitView, c: ConfigView)
    requires
        service_value(u, "ExecStart"@) is Some,
    ensures
        converted(u, c) is Ok,
        service_values(u, "ExecStopPost"@).len() == 0 ==> {
            &&& converted(u, c)->Ok_0.main_service.stop_command == service_value(u, "ExecStop"@)
            &&& converted(u, c)->Ok_0.stop_script is None
        },
        service_values(u, "ExecStopPost"@).len() > 0 && service_value(u, "ExecStop"@) is Some ==> {
            let r = converted(u, c)->Ok_0;
            let v = service_value(u, "ExecStop"@)->Some_0;
            let head = "#!/bin/sh\nset -e\n"@ + v + "\n"@;
            &&& r.main_service.stop_command == Some(
                "/bin/sh "@ + output_dir_for(c, u.source_path) + "/"@ + service_name(u.source_path)
                    + "-stop.sh"@,
            )
            &&& r.stop_script is Some
            &&& r.stop_script->Some_0.len() >= head.len()
            &&& r.stop_script->Some_0.take(head.len() as int) == head
        },
        service_values(u, "ExecStopPost"@).len() > 0 && service_value(u, "ExecStop"@) is None ==> {
            &&& converted(u, c)->Ok_0.main_service.stop_command is None
            &&& converted(u, c)->Ok_0.stop_script is None
        },
{
    let cmds = service_values(u, "ExecStopPost"@);
    if cmds.len() > 0 {
        if let Some(v) = service_value(u, "ExecStop"@) {
            let head = "#!/bin/sh\nset -e\n"@ + v + "\n"@;
            reveal_strlit("-");
            reveal_strlit("stop");
            reveal_strlit(".sh");
            reveal_strlit("-stop.sh");
            let dir = output_dir_for(c, u.source_path);
            let name = service_name(u.source_path);
            assert(crate::converter::script_command(dir, name, "stop"@) =~= "/bin/sh "@ + dir + "/"@
                + name + "-stop.sh"@);
            let s = converted(u, c)->Ok_0.stop_script->Some_0;
            assert(s == head + crate::converter::script_lines(cmds));
            assert(s.take(head.len() as int) =~= head);
        }
    }
}

// ---------------------------------------------------------------------
// Dependency names
// ---------------------------------------------------------------------

proof fn lemma_not_ends(y: Seq<char>, t: Seq<char>, s: Seq<char>, k: int)
    requires
        0 < k <= t.len(),
        k <= s.len(),
        s[s.len() - k] != t[t.len() - k],
    ensures
        !ends_with(y + t, s),
{
    let x = y + t;
    if ends_with(x, s) {
        assert(x[x.len() - k] == x.skip(x.len() - s.len())[s.len() - k]);
        assert(x[x.len() - k] == t[t.len() - k]);
    }
}

proof fn lemma_ends_with_suffix(d: Seq<char>, t: Seq<char>)
    ensures
        ends_with(d + t, t),
        (d + t).take((d + t).len() - t.len()) == d,
{
    assert((d + t).skip((d + t).len() - t.len()) =~= t);
    assert((d + t).take((d + t).len() - t.len()) =~= d);
}

/// A unit name loses exactly its unit suffix (`.service`, `.target`,
/// `.socket`, `.mount`, `.path` or `.timer`): what is left is the name in
/// front of it, whatever that is.
pub proof fn law_unit_suffix_dropped(d: Seq<char>)
    ensures
        strip_unit_suffix(d + ".service"@) == d,
        strip_unit_suffix(d + ".target"@) == d,
        strip_unit_suffix(d + ".socket"@) == d,
        strip_unit_suffix(d + ".mount"@) == d,
        strip_unit_suffix(d + ".path"@) == d,
        strip_unit_suffix(d + ".timer"@) == d,
{
    reveal_strlit(".service");
    reveal_strlit(".target");
    reveal_strlit(".socket");
    reveal_strlit(".mount");
    reveal_strlit(".path");
    reveal_strlit(".timer");
    let sv = ".service"@;
    let tg = ".target"@;
    let so = ".socket"@;
    let mo = ".mount"@;
    let pa = ".path"@;
    let ti = ".timer"@;
    lemma_ends_with_suffix(d, sv);
    lemma_ends_with_suffix(d, tg);
    lemma_ends_with_suffix(d, so);
    lemma_ends_with_suffix(d, mo);
    lemma_ends_with_suffix(d, pa);
    lemma_ends_with_suffix(d, ti);
    // `.target`: not `.service`
    lemma_not_ends(d, tg, sv, 1);
    // `.socket`: not `.service`, not `.target`
    lemma_not_ends(d, so, sv, 1);
    lemma_not_ends(d, so, tg, 3);
    // `.mount`: not `.service`, `.target`, `.socket`
    lemma_not_ends(d, mo, sv, 1);
    lemma_not_ends(d, mo, tg, 2);
    lemma_not_ends(d, mo, so, 2);
    // `.path`
    lemma_not_ends(d, pa, sv, 1);
    lemma_not_ends(d, pa, tg, 1);
    lemma_not_ends(d, pa, so, 1);
    lemma_not_ends(d, pa, mo, 1);
    // `.timer`
    lemma_not_ends(d, ti, sv, 1);
    lemma_not_ends(d, ti, tg, 1);
    lemma_not_ends(d, ti, so, 1);
    lemma_not_ends(d, ti, mo, 1);
    lemma_not_ends(d, ti, pa, 1);
}

proof fn lemma_trim_word(w: Seq<char>)
    requires
        forall|i: int| 0 <= i < w.len() ==> !is_ws(#[trigger] w[i]),
    ensures
        trim(w) == w,
{
    if w.len() > 0 {
        assert(!is_ws(w[0]));
        assert(trim_start(w) == w);
        assert(!is_ws(w.last()));
        assert(trim_end(w) == w);
    } else {
        assert(trim_start(w) == w);
        assert(trim_end(w) == w);
    }
}

/// A dependency name written without whitespace resolves through the
/// dependency map when the map has it, and otherwise to the name without
/// its unit suffix: `d.target`, `d.service`, ... resolve to `d`.
pub proof fn law_dependency_resolution(d: Seq<char>, sfx: Seq<char>, m: Map<Seq<char>, Seq<char>>)
    requires
        forall|i: int| 0 <= i < d.len() ==> !is_ws(#[trigger] d[i]),
        sfx == ".service"@ || sfx == ".target"@ || sfx == ".socket"@ || sfx == ".mount"@ || sfx
            == ".path"@ || sfx == ".timer"@,
    ensures
        forall|i: int| 0 <= i < (d + sfx).len() ==> !is_ws(#[trigger] (d + sfx)[i]),
        m.dom().contains(d + sfx) ==> resolve_dependency(d + sfx, m) == m[d + sfx],
        !m.dom().contains(d + sfx) ==> resolve_dependency(d + sfx, m) == d,
{
    reveal_strlit(".service");
    reveal_strlit(".target");
    reveal_strlit(".socket");
    reveal_strlit(".mount");
    reveal_strlit(".path");
    reveal_strlit(".timer");
    let w = d + sfx;
    assert forall|i: int| 0 <= i < w.len() implies !is_ws(#[trigger] w[i]) by {
        if i < d.len() {
            assert(w[i] == d[i]);
        } else {
            assert(w[i] == sfx[i - d.len()]);
        }
    }
    lemma_trim_word(w);
    law_unit_suffix_dropped(d);
}

// ---------------------------------------------------------------------
// `$VAR` arguments
// ---------------------------------------------------------------------

proof fn lemma_words_acc_word(s: Seq<char>, cur: Seq<char>, acc: Seq<Seq<char>>)
    requires
        forall|i: int| 0 <= i < s.len() ==> !is_ws(#[trigger] s[i]),
        cur.len() + s.len() > 0,
    ensures
        words_acc(s, cur, acc) == acc.push(cur + s),
    decreases s.len(),
{
    if s.len() == 0 {
        assert(cur + s =~= cur);
    } else {
        assert(!is_ws(s[0]));
        let t = s.drop_first();
        assert forall|i: int| 0 <= i < t.len() implies !is_ws(#[trigger] t[i]) by {
            assert(t[i] == s[i + 1]);
        }
        lemma_words_acc_word(t, cur.push(s[0]), acc);
        assert(cur.push(s[0]) + t =~= cur + s);
    }
}

/// A character of a variable name: alphanumeric or `_`, and no whitespace.
pub open spec fn name_char(c: char) -> bool {
    (is_alphanumeric(c) || c == '_') && !is_ws(c)
}

proof fn lemma_env_word(t: Seq<char>, v: Seq<char>)
    requires
        forall|i: int| 0 <= i < t.len() ==> !is_ws(#[trigger] t[i]),
        t.len() > 0,
        t[0] == '$',
        crate::converter::var_inner(t) == v,
        v.len() > 0,
        forall|i: int| 0 <= i < v.len() ==> name_char(#[trigger] v[i]),
    ensures
        env_refs(t) == "$/"@ + v,
{
    assert(contains_char(t, '$'));
    lemma_words_acc_word(t, seq![], seq![]);
    assert(Seq::<char>::empty() + t =~= t);
    assert(words(t) =~= seq![t]);
    let ts = words(t).map_values(|x: Seq<char>| crate::converter::env_token(x));
    assert(ts =~= seq![crate::converter::env_token(t)]);
    assert(crate::converter::is_var_name(v));
}

/// A standalone `$VAR` or `${VAR}` argument, where `VAR` is a non-empty
/// name of alphanumeric characters and `_`, becomes dinit's
/// word-splitting `$/VAR`.
pub proof fn law_standalone_variables_split(v: Seq<char>)
    requires
        v.len() > 0,
        forall|i: int| 0 <= i < v.len() ==> name_char(#[trigger] v[i]),
    ensures
        env_refs(seq!['$'] + v) == "$/"@ + v,
        env_refs(seq!['$', '{'] + v + seq!['}']) == "$/"@ + v,
{
    assert(!is_ws('$') && !is_ws('{') && !is_ws('}'));
    // `$VAR`
    let t = seq!['$'] + v;
    assert forall|i: int| 0 <= i < t.len() implies !is_ws(#[trigger] t[i]) by {
        if i > 0 {
            assert(t[i] == v[i - 1]);
        }
    }
    assert(t.drop_first() =~= v);
    assert(name_char(v[0]));
    assert(v[0] != '{');
    lemma_env_word(t, v);
    // `${VAR}`
    let b = seq!['$', '{'] + v + seq!['}'];
    assert forall|i: int| 0 <= i < b.len() implies !is_ws(#[trigger] b[i]) by {
        if 2 <= i < b.len() - 1 {
            assert(b[i] == v[i - 2]);
        }
    }
    let rest = b.drop_first();
    assert(rest[0] == '{');
    assert(rest.last() == '}');
    assert(rest.subrange(1, rest.len() - 1) =~= v);
    lemma_env_word(b, v);
}

// ---------------------------------------------------------------------
// The service type line
// ---------------------------------------------------------------------

/// dinit's word for each service type.
pub open spec fn type_line(t: DinitType) -> Seq<char> {
    match t {
        DinitType::Process => "type = process\n"@,
        DinitType::BgProcess => "type = bgprocess\n"@,
        DinitType::Scripted => "type = scripted\n"@,
    }
}

/// A generated service file opens with the provenance comment and then the
/// `type =` line: `process`, `bgprocess` or `scripted`.
pub proof fn law_type_line(s: ServiceView, delay: Option<Seq<char>>)
    ensures
        ({
            let head = "# Generated by sd2dinit from "@ + s.source_path + "\n"@ + type_line(
                s.service_type,
            );
            &&& generated(s, delay).len() >= head.len()
            &&& generated(s, delay).take(head.len() as int) == head
        }),
{
    reveal_strlit("type");
    reveal_strlit(" = ");
    reveal_strlit("\n");
    reveal_strlit("process");
    reveal_strlit("bgprocess");
    reveal_strlit("scripted");
    reveal_strlit("type = process\n");
    reveal_strlit("type = bgprocess\n");
    reveal_strlit("type = scripted\n");
    let w = crate::generator::dinit_type_word(s.service_type);
    assert(crate::generator::setting("type"@, w) =~= type_line(s.service_type));
    let head = "# Generated by sd2dinit from "@ + s.source_path + "\n"@ + type_line(s.service_type);
    let pre = crate::generator::preamble(s);
    assert(pre =~= head);
    let g = generated(s, delay);
    assert(g == pre + crate::generator::body_settings(s, delay));
    assert(g.take(head.len() as int) =~= head);
}

// ---------------------------------------------------------------------
// Restart=
// ---------------------------------------------------------------------

/// `Restart=`: `no` (or nothing) means no restart; `always` restarts with
/// smooth recovery; `on-success` restarts too, with a warning that it is
/// lossy; `on-failure`, `on-abnormal`, `on-abort` and `on-watchdog` restart
/// on failure with smooth recovery. None of these but `on-success` warns.
pub proof fn law_restart_policies()
    ensures
        restart_mapping(None) == (RestartPolicy::Never, false),
        restart_warnings(None) == Seq::<WarningView>::empty(),
        restart_mapping(Some("no"@)) == (RestartPolicy::Never, false),
        restart_warnings(Some("no"@)) == Seq::<WarningView>::empty(),
        restart_mapping(Some("always"@)) == (RestartPolicy::Always, true),
        restart_warnings(Some("always"@)) == Seq::<WarningView>::empty(),
        restart_mapping(Some("on-success"@)) == (RestartPolicy::Always, true),
        restart_warnings(Some("on-success"@)).len() == 1,
        restart_mapping(Some("on-failure"@)) == (RestartPolicy::OnFailure, true),
        restart_warnings(Some("on-failure"@)) == Seq::<WarningView>::empty(),
        restart_mapping(Some("on-abnormal"@)) == (RestartPolicy::OnFailure, true),
        restart_warnings(Some("on-abnormal"@)) == Seq::<WarningView>::empty(),
        restart_mapping(Some("on-abort"@)) == (RestartPolicy::OnFailure, true),
        restart_warnings(Some("on-abort"@)) == Seq::<WarningView>::empty(),
        restart_mapping(Some("on-watchdog"@)) == (RestartPolicy::OnFailure, true),
        restart_warnings(Some("on-watchdog"@)) == Seq::<WarningView>::empty(),
{
    reveal_strlit("no");
    reveal_strlit("always");
    reveal_strlit("on-success");
    reveal_strlit("on-failure");
    reveal_strlit("on-abnormal");
    reveal_strlit("on-abort");
    reveal_strlit("on-watchdog");
    let words = seq![
        "no"@,
        "always"@,
        "on-success"@,
        "on-failure"@,
        "on-abnormal"@,
        "on-abort"@,
        "on-watchdog"@,
    ];
    assert("no"@.len() == 2 && "always"@.len() == 6 && "on-success"@.len() == 10);
    assert("on-failure"@.len() == 10 && "on-abnormal"@.len() == 11 && "on-abort"@.len() == 8);
    assert("on-watchdog"@.len() == 11);
    assert("on-success"@[3] != "on-failure"@[3]);
    assert("on-abnormal"@[3] != "on-watchdog"@[3]);
}

// ---------------------------------------------------------------------
// Type=
// ---------------------------------------------------------------------

/// `Type=`: `simple` runs as a `process`, `forking` with a `PIDFile=` as a
/// `bgprocess` (without one as a `process`), `oneshot` as `scripted`, and
/// every other value as a `process`. No `Type=` means `simple`.
pub proof fn law_service_types(u: UnitView, c: ConfigView, t: Seq<char>)
    requires
        service_value(u, "ExecStart"@) is Some,
    ensures
        ({
            let ty = converted(u, c)->Ok_0.main_service.service_type;
            let pid = service_value(u, "PIDFile"@) is Some;
            &&& service_value(u, "Type"@) is None ==> ty == DinitType::Process
            &&& service_value(u, "Type"@) == Some("simple"@) ==> ty == DinitType::Process
            &&& service_value(u, "Type"@) == Some("forking"@) ==> ty == (if pid {
                DinitType::BgProcess
            } else {
                DinitType::Process
            })
            &&& service_value(u, "Type"@) == Some("oneshot"@) ==> ty == DinitType::Scripted
            &&& service_value(u, "Type"@) == Some(t) && t != "simple"@ && t != "forking"@ && t
                != "oneshot"@ ==> ty == DinitType::Process
        }),
{
    reveal_strlit("simple");
    reveal_strlit("forking");
    reveal_strlit("oneshot");
    assert("simple"@.len() != "oneshot"@.len());
    assert("simple"@.len() != "forking"@.len());
    assert("oneshot"@[0] != "forking"@[0]);
}

// ---------------------------------------------------------------------
// Requires=, Wants=, After=
// ---------------------------------------------------------------------

/// `Requires=` becomes `depends-on` (followed by the pre-start service when
/// there is one), `Wants=` becomes `depends-ms` and `After=` becomes
/// `waits-for`, each name resolved in order.
pub proof fn law_dependency_lists(u: UnitView, c: ConfigView)
    requires
        service_value(u, "ExecStart"@) is Some,
    ensures
        ({
            let s = converted(u, c)->Ok_0.main_service;
            let m = c.dependency_map;
            let req = crate::converter::resolve_values(
                crate::parser::lookup_all(u.sections, "Unit"@, "Requires"@),
                m,
            );
            &&& s.depends_ms == crate::converter::resolve_values(
                crate::parser::lookup_all(u.sections, "Unit"@, "Wants"@),
                m,
            )
            &&& s.waits_for == crate::converter::resolve_values(
                crate::parser::lookup_all(u.sections, "Unit"@, "After"@),
                m,
            )
            &&& service_values(u, "ExecStartPre"@).len() == 0 ==> s.depends_on == req
            &&& service_values(u, "ExecStartPre"@).len() > 0 ==> s.depends_on == req.push(
                service_name(u.source_path) + "-pre"@,
            )
        }),
{
    let req = crate::converter::resolve_values(
        crate::parser::lookup_all(u.sections, "Unit"@, "Requires"@),
        c.dependency_map,
    );
    assert(req + Seq::<Seq<char>>::empty() =~= req);
    assert(req + seq![service_name(u.source_path) + "-pre"@] =~= req.push(
        service_name(u.source_path) + "-pre"@,
    ));
}

/// Resolving a list of values takes each whitespace-separated name of each
/// value in turn: the names of a value appended to those before it.
pub proof fn law_resolve_values_append(vals: Seq<Seq<char>>, v: Seq<char>, m: Map<Seq<char>, Seq<char>>)
    ensures
        crate::converter::resolve_values(vals.push(v), m) == crate::converter::resolve_values(vals, m)
            + words(v).map_values(|w: Seq<char>| resolve_dependency(w, m)),
        crate::converter::resolve_values(vals.push(v), m).len() == crate::converter::resolve_values(
            vals,
            m,
        ).len() + words(v).len(),
{
    assert(vals.push(v).drop_last() =~= vals);
}

// ---------------------------------------------------------------------
// ExecStartPre= and ExecStartPost=
// ---------------------------------------------------------------------

/// `ExecStartPre=` / `ExecStartPost=` give a scripted `<name>-pre` /
/// `<name>-post` service, the latter waiting for the main service. One
/// command without a `-` prefix runs directly; several, or one with `-`,
/// run from the wrapper script `<dir>/<name>-pre.sh` / `-post.sh` through
/// `/bin/sh`. Without such commands there is no helper service and no
/// script.
pub proof fn law_start_helpers(u: UnitView, c: ConfigView)
    requires
        service_value(u, "ExecStart"@) is Some,
    ensures
        ({
            let r = converted(u, c)->Ok_0;
            let name = service_name(u.source_path);
            let dir = output_dir_for(c, u.source_path);
            let pre = service_values(u, "ExecStartPre"@);
            let post = service_values(u, "ExecStartPost"@);
            &&& pre.len() == 0 <==> r.pre_service is None
            &&& pre.len() == 0 ==> r.pre_script is None
            &&& post.len() == 0 <==> r.post_service is None
            &&& post.len() == 0 ==> r.post_script is None
            &&& pre.len() > 0 ==> {
                let p = r.pre_service->Some_0;
                &&& p.name == name + "-pre"@
                &&& p.service_type == DinitType::Scripted
                &&& p.restart == RestartPolicy::Never
                &&& p.waits_for == Seq::<Seq<char>>::empty()
                &&& p.user == service_value(u, "User"@)
                &&& p.group == service_value(u, "Group"@)
                &&& (pre.len() == 1 && !crate::text::starts_with_char(trim(pre[0]), '-')) ==> {
                    &&& p.command == Some(trim(pre[0]))
                    &&& r.pre_script is None
                }
                &&& (pre.len() > 1 || crate::text::starts_with_char(trim(pre[0]), '-')) ==> {
                    &&& p.command == Some("/bin/sh "@ + dir + "/"@ + name + "-pre.sh"@)
                    &&& r.pre_script is Some
                    &&& r.pre_script->Some_0.len() >= "#!/bin/sh\nset -e\n"@.len()
                    &&& r.pre_script->Some_0.take("#!/bin/sh\nset -e\n"@.len() as int)
                        == "#!/bin/sh\nset -e\n"@
                }
            }
            &&& post.len() > 0 ==> {
                let q = r.post_service->Some_0;
                &&& q.name == name + "-post"@
                &&& q.service_type == DinitType::Scripted
                &&& q.restart == RestartPolicy::Never
                &&& q.waits_for == seq![name]
                &&& (post.len() == 1 && !crate::text::starts_with_char(trim(post[0]), '-')) ==> {
                    &&& q.command == Some(trim(post[0]))
                    &&& r.post_script is None
                }
                &&& (post.len() > 1 || crate::text::starts_with_char(trim(post[0]), '-')) ==> {
                    &&& q.command == Some("/bin/sh "@ + dir + "/"@ + name + "-post.sh"@)
                    &&& r.post_script is Some
                    &&& r.post_script->Some_0.take("#!/bin/sh\nset -e\n"@.len() as int)
                        == "#!/bin/sh\nset -e\n"@
                }
            }
        }),
{
    reveal_strlit("-");
    reveal_strlit("pre");
    reveal_strlit("post");
    reveal_strlit(".sh");
    reveal_strlit("-pre.sh");
    reveal_strlit("-post.sh");
    let name = service_name(u.source_path);
    let dir = output_dir_for(c, u.source_path);
    assert(crate::converter::script_command(dir, name, "pre"@) =~= "/bin/sh "@ + dir + "/"@ + name
        + "-pre.sh"@);
    assert(crate::converter::script_command(dir, name, "post"@) =~= "/bin/sh "@ + dir + "/"@ + name
        + "-post.sh"@);
    let h = crate::converter::script_header();
    let pre = service_values(u, "ExecStartPre"@);
    let post = service_values(u, "ExecStartPost"@);
    let sp = h + crate::converter::script_lines(pre);
    assert(sp.take(h.len() as int) =~= h);
    let sq = h + crate::converter::script_lines(post);
    assert(sq.take(h.len() as int) =~= h);
}

// ---------------------------------------------------------------------
// Specifiers
// ---------------------------------------------------------------------

/// `%n` stands for the full unit name (`<name>.service`) and `%N` for the
/// name without the suffix; any other `%` and letter is removed with a
/// warning naming it. The name itself is not read for specifiers.
pub proof fn law_specifiers(name: Seq<char>, c: char)
    requires
        !contains_char(name, '%'),
        crate::text::is_alphabetic(c),
        c != 'n',
        c != 'N',
    ensures
        crate::converter::specifiers_replaced(seq!['%', 'n'], name) == name + ".service"@,
        crate::converter::specifier_warnings(seq!['%', 'n'], name) == Seq::<WarningView>::empty(),
        crate::converter::specifiers_replaced(seq!['%', 'N'], name) == name,
        crate::converter::specifier_warnings(seq!['%', 'N'], name) == Seq::<WarningView>::empty(),
        crate::converter::specifiers_replaced(seq!['%', c], name) == Seq::<char>::empty(),
        crate::converter::specifier_warnings(seq!['%', c], name) == seq![
            crate::model::warning(
                "ExecStart"@,
                "unknown specifier %"@ + seq![c] + " removed"@,
                crate::model::Severity::Warn,
            ),
        ],
{
    reveal_strlit(".service");
    let full = name + ".service"@;
    assert(!contains_char(full, '%')) by {
        if contains_char(full, '%') {
            let j = choose|j: int| 0 <= j < full.len() && full[j] == '%';
            if j < name.len() {
                assert(full[j] == name[j]);
            } else {
                assert(full[j] == ".service"@[j - name.len()]);
            }
        }
    }
    crate::laws::law_plain_commands_unchanged(full, name);
    crate::laws::law_plain_commands_unchanged(name, name);
    // `%n`
    let a = seq!['%', 'n'];
    assert(a.skip(2) =~= Seq::<char>::empty());
    assert(crate::converter::replace_pair(a.skip(2), '%', 'n', full) == Seq::<char>::empty());
    assert(crate::converter::replace_pair(a, '%', 'n', full) =~= full);
    crate::laws::lemma_replace_pair_plain(full, 'N', name);
    crate::laws::lemma_strip_plain(full, seq![], seq![]);
    assert(Seq::<char>::empty() + full =~= full);
    // `%N`
    let b = seq!['%', 'N'];
    assert(b.drop_first() =~= seq!['N']);
    assert(seq!['N'].drop_first() =~= Seq::<char>::empty());
    assert(crate::converter::replace_pair(Seq::<char>::empty(), '%', 'n', full) == Seq::<char>::empty());
    assert(crate::converter::replace_pair(seq!['N'], '%', 'n', full) =~= seq!['N']);
    assert(crate::converter::replace_pair(b, '%', 'n', full) =~= b);
    assert(b.skip(2) =~= Seq::<char>::empty());
    assert(crate::converter::replace_pair(b.skip(2), '%', 'N', name) == Seq::<char>::empty());
    assert(b[0] == '%' && b[1] == 'N');
    assert(crate::converter::replace_pair(b, '%', 'N', name) == name + Seq::<char>::empty());
    assert(name + Seq::<char>::empty() =~= name);
    crate::laws::lemma_strip_plain(name, seq![], seq![]);
    assert(Seq::<char>::empty() + name =~= name);
    // `%c`
    let d = seq!['%', c];
    assert(d.drop_first() =~= seq![c]);
    assert(seq![c].drop_first() =~= Seq::<char>::empty());
    assert(crate::converter::replace_pair(seq![c], '%', 'n', full) =~= seq![c]);
    assert(crate::converter::replace_pair(d, '%', 'n', full) =~= d);
    assert(crate::converter::replace_pair(seq![c], '%', 'N', name) =~= seq![c]);
    assert(crate::converter::replace_pair(d, '%', 'N', name) =~= d);
    assert(d.skip(2) =~= Seq::<char>::empty());
    let st = crate::converter::strip_specifiers(d, seq![], seq![]);
    assert(st == crate::converter::strip_specifiers(Seq::<char>::empty(), seq![], seq![c]));
    assert(st == (Seq::<char>::empty(), seq![c]));
    assert(seq![c].map_values(|x: char| crate::converter::specifier_warning(x)) =~= seq![
        crate::converter::specifier_warning(c),
    ]);
}

// ---------------------------------------------------------------------
// The whole service file
// ---------------------------------------------------------------------

/// `key = value` lines, one per pair, in order.
pub open spec fn render(pairs: Seq<(Seq<char>, Seq<char>)>) -> Seq<char>
    decreases pairs.len(),
{
    if pairs.len() == 0 {
        seq![]
    } else {
        render(pairs.drop_last()) + pairs.last().0 + " = "@ + pairs.last().1 + "\n"@
    }
}

pub open spec fn opt_pair(key: Seq<char>, v: Option<Seq<char>>) -> Seq<(Seq<char>, Seq<char>)> {
    match v {
        Some(x) => seq![(key, x)],
        None => seq![],
    }
}

pub open spec fn each_pair(key: Seq<char>, vs: Seq<Seq<char>>) -> Seq<(Seq<char>, Seq<char>)> {
    vs.map_values(|v: Seq<char>| (key, v))
}

/// The type line of a dinit service file: `process`, `bgprocess` or
/// `scripted`.
pub open spec fn type_pair(s: ServiceView) -> Seq<(Seq<char>, Seq<char>)> {
    seq![
        (
            "type"@,
            match s.service_type {
                DinitType::Process => "process"@,
                DinitType::BgProcess => "bgprocess"@,
                DinitType::Scripted => "scripted"@,
            },
        ),
    ]
}

pub open spec fn run_as_value(s: ServiceView) -> Option<Seq<char>> {
    match (s.user, s.group) {
        (Some(u), Some(g)) => Some(u + ":"@ + g),
        (Some(u), None) => Some(u),
        (None, Some(g)) => Some(":"@ + g),
        (None, None) => None,
    }
}

pub open spec fn restart_value(r: RestartPolicy) -> Option<Seq<char>> {
    match r {
        RestartPolicy::Never => None,
        RestartPolicy::Always => Some("true"@),
        RestartPolicy::OnFailure => Some("on-failure"@),
    }
}

/// The settings after the type: `command`, `stop-command`, `run-as`
/// (`user:group`, `user` or `:group`), `working-dir`, `logfile`,
/// `pid-file`, one `env-file` each, `restart` (`true` for always,
/// `on-failure`, nothing for never), `smooth-recovery = true` when set,
/// `restart-delay`, then one `depends-on`, `depends-ms` and `waits-for`
/// line per name.
pub open spec fn body_pairs(s: ServiceView, delay: Option<Seq<char>>) -> Seq<(Seq<char>, Seq<char>)> {
    opt_pair("command"@, s.command) + opt_pair("stop-command"@, s.stop_command) + opt_pair(
        "run-as"@,
        run_as_value(s),
    ) + opt_pair("working-dir"@, s.working_dir) + opt_pair("logfile"@, s.logfile) + opt_pair(
        "pid-file"@,
        s.pid_file,
    ) + each_pair("env-file"@, s.env_files) + opt_pair("restart"@, restart_value(s.restart))
        + opt_pair("smooth-recovery"@, if s.smooth_recovery { Some("true"@) } else { None })
        + opt_pair("restart-delay"@, delay) + each_pair("depends-on"@, s.depends_on) + each_pair(
        "depends-ms"@,
        s.depends_ms,
    ) + each_pair("waits-for"@, s.waits_for)
}

/// The settings of a dinit service file for `s`, in the order they are
/// written.
pub open spec fn service_settings(s: ServiceView, delay: Option<Seq<char>>) -> Seq<(Seq<char>, Seq<char>)> {
    type_pair(s) + body_pairs(s, delay)
}

proof fn lemma_render_append(a: Seq<(Seq<char>, Seq<char>)>, b: Seq<(Seq<char>, Seq<char>)>)
    ensures
        render(a + b) == render(a) + render(b),
    decreases b.len(),
{
    if b.len() == 0 {
        assert(a + b =~= a);
        assert(render(a) + render(b) =~= render(a));
    } else {
        assert((a + b).drop_last() =~= a + b.drop_last());
        assert((a + b).last() == b.last());
        lemma_render_append(a, b.drop_last());
        assert(render(a + b) =~= render(a) + render(b));
    }
}

proof fn lemma_render_each(key: Seq<char>, vs: Seq<Seq<char>>)
    ensures
        render(each_pair(key, vs)) == crate::generator::settings(key, vs),
    decreases vs.len(),
{
    if vs.len() > 0 {
        lemma_render_each(key, vs.drop_last());
        assert(each_pair(key, vs).drop_last() =~= each_pair(key, vs.drop_last()));
        assert(each_pair(key, vs).last() == (key, vs.last()));
    }
}

proof fn lemma_render_opt(key: Seq<char>, v: Option<Seq<char>>)
    ensures
        render(opt_pair(key, v)) == crate::generator::opt_setting(key, v),
{
    match v {
        Some(x) => {
            let p = opt_pair(key, v);
            assert(p.drop_last() =~= Seq::<(Seq<char>, Seq<char>)>::empty());
            assert(render(p.drop_last()) == Seq::<char>::empty());
            assert(p.last() == (key, x));
            assert(render(p) =~= crate::generator::setting(key, x));
        },
        None => {
            assert(render(opt_pair(key, v)) =~= Seq::<char>::empty());
        },
    }
}

proof fn lemma_render_step(
    a: Seq<(Seq<char>, Seq<char>)>,
    q: Seq<(Seq<char>, Seq<char>)>,
    x: Seq<char>,
    y: Seq<char>,
)
    requires
        render(a) == x,
        render(q) == y,
    ensures
        render(a + q) == x + y,
{
    lemma_render_append(a, q);
}

proof fn lemma_render_fixed_lines(s: ServiceView)
    ensures
        render(opt_pair("run-as"@, run_as_value(s))) == crate::generator::run_as(s.user, s.group),
        render(opt_pair("restart"@, restart_value(s.restart))) == crate::generator::restart_setting(
            s.restart,
        ),
        render(opt_pair("smooth-recovery"@, if s.smooth_recovery { Some("true"@) } else { None }))
            == (if s.smooth_recovery {
            "smooth-recovery = true\n"@
        } else {
            seq![]
        }),
{
    reveal_strlit("true");
    reveal_strlit("on-failure");
    reveal_strlit("restart");
    reveal_strlit("smooth-recovery");
    reveal_strlit(" = ");
    reveal_strlit("\n");
    reveal_strlit("restart = true\n");
    reveal_strlit("restart = on-failure\n");
    reveal_strlit("smooth-recovery = true\n");
    lemma_render_opt("run-as"@, run_as_value(s));
    lemma_render_opt("restart"@, restart_value(s.restart));
    lemma_render_opt("smooth-recovery"@, if s.smooth_recovery { Some("true"@) } else { None });
    assert(crate::generator::opt_setting("restart"@, restart_value(s.restart))
        =~= crate::generator::restart_setting(s.restart));
    assert(crate::generator::opt_setting(
        "smooth-recovery"@,
        if s.smooth_recovery { Some("true"@) } else { None },
    ) =~= (if s.smooth_recovery {
        "smooth-recovery = true\n"@
    } else {
        seq![]
    }));
}

proof fn lemma_render_body(s: ServiceView, delay: Option<Seq<char>>)
    ensures
        render(body_pairs(s, delay)) == crate::generator::body_settings(s, delay),
{
    let q1 = opt_pair("command"@, s.command);
    let q2 = opt_pair("stop-command"@, s.stop_command);
    let q3 = opt_pair("run-as"@, run_as_value(s));
    let q4 = opt_pair("working-dir"@, s.working_dir);
    let q5 = opt_pair("logfile"@, s.logfile);
    let q6 = opt_pair("pid-file"@, s.pid_file);
    let q7 = each_pair("env-file"@, s.env_files);
    let q8 = opt_pair("restart"@, restart_value(s.restart));
    let q9 = opt_pair("smooth-recovery"@, if s.smooth_recovery { Some("true"@) } else { None });
    let q10 = opt_pair("restart-delay"@, delay);
    let q11 = each_pair("depends-on"@, s.depends_on);
    let q12 = each_pair("depends-ms"@, s.depends_ms);
    let q13 = each_pair("waits-for"@, s.waits_for);
    let b1 = crate::generator::opt_setting("command"@, s.command);
    let b2 = crate::generator::opt_setting("stop-command"@, s.stop_command);
    let b3 = crate::generator::run_as(s.user, s.group);
    let b4 = crate::generator::opt_setting("working-dir"@, s.working_dir);
    let b5 = crate::generator::opt_setting("logfile"@, s.logfile);
    let b6 = crate::generator::opt_setting("pid-file"@, s.pid_file);
    let b7 = crate::generator::settings("env-file"@, s.env_files);
    let b8 = crate::generator::restart_setting(s.restart);
    let b9 = if s.smooth_recovery {
        "smooth-recovery = true\n"@
    } else {
        seq![]
    };
    let b10 = crate::generator::opt_setting("restart-delay"@, delay);
    let b11 = crate::generator::settings("depends-on"@, s.depends_on);
    let b12 = crate::generator::settings("depends-ms"@, s.depends_ms);
    let b13 = crate::generator::settings("waits-for"@, s.waits_for);
    lemma_render_fixed_lines(s);
    lemma_render_opt("command"@, s.command);
    lemma_render_opt("stop-command"@, s.stop_command);
    lemma_render_opt("working-dir"@, s.working_dir);
    lemma_render_opt("logfile"@, s.logfile);
    lemma_render_opt("pid-file"@, s.pid_file);
    lemma_render_each("env-file"@, s.env_files);
    lemma_render_opt("restart-delay"@, delay);
    lemma_render_each("depends-on"@, s.depends_on);
    lemma_render_each("depends-ms"@, s.depends_ms);
    lemma_render_each("waits-for"@, s.waits_for);
    let a2 = q1 + q2;
    lemma_render_step(q1, q2, b1, b2);
    let a3 = a2 + q3;
    lemma_render_step(a2, q3, b1 + b2, b3);
    let a4 = a3 + q4;
    lemma_render_step(a3, q4, b1 + b2 + b3, b4);
    let a5 = a4 + q5;
    lemma_render_step(a4, q5, b1 + b2 + b3 + b4, b5);
    let a6 = a5 + q6;
    lemma_render_step(a5, q6, b1 + b2 + b3 + b4 + b5, b6);
    let a7 = a6 + q7;
    lemma_render_step(a6, q7, b1 + b2 + b3 + b4 + b5 + b6, b7);
    let a8 = a7 + q8;
    lemma_render_step(a7, q8, b1 + b2 + b3 + b4 + b5 + b6 + b7, b8);
    let a9 = a8 + q9;
    lemma_render_step(a8, q9, b1 + b2 + b3 + b4 + b5 + b6 + b7 + b8, b9);
    let a10 = a9 + q10;
    lemma_render_step(a9, q10, b1 + b2 + b3 + b4 + b5 + b6 + b7 + b8 + b9, b10);
    let a11 = a10 + q11;
    lemma_render_step(a10, q11, b1 + b2 + b3 + b4 + b5 + b6 + b7 + b8 + b9 + b10, b11);
    let a12 = a11 + q12;
    lemma_render_step(a11, q12, b1 + b2 + b3 + b4 + b5 + b6 + b7 + b8 + b9 + b10 + b11, b12);
    lemma_render_step(a12, q13, b1 + b2 + b3 + b4 + b5 + b6 + b7 + b8 + b9 + b10 + b11 + b12, b13);
}

/// A generated service file is the provenance comment followed by one
/// `key = value` line per setting of [`service_settings`], in order.
pub proof fn law_service_file_format(s: ServiceView, delay: Option<Seq<char>>)
    ensures
        generated(s, delay) == "# Generated by sd2dinit from "@ + s.source_path + "\n"@ + render(
            service_settings(s, delay),
        ),
{
    lemma_render_body(s, delay);
    lemma_render_append(type_pair(s), body_pairs(s, delay));
    let tp = type_pair(s);
    assert(tp.drop_last() =~= Seq::<(Seq<char>, Seq<char>)>::empty());
    assert(render(tp.drop_last()) == Seq::<char>::empty());
    assert(render(tp) =~= crate::generator::setting("type"@, crate::generator::dinit_type_word(s.service_type)));
    let head = "# Generated by sd2dinit from "@ + s.source_path + "\n"@;
    assert(crate::generator::preamble(s) == head + render(tp));
    assert(generated(s, delay) =~= head + (render(tp) + render(body_pairs(s, delay))));
}

// ---------------------------------------------------------------------
// Environment= and EnvironmentFile=
// ---------------------------------------------------------------------

/// `Environment=` values go, one per line, into a generated `<name>.env`
/// in the output directory, which comes first among the env-files; each
/// `EnvironmentFile=` follows as written, without systemd's `-` prefix.
/// Without `Environment=` there is no generated file.
pub proof fn law_environment(u: UnitView, c: ConfigView)
    requires
        service_value(u, "ExecStart"@) is Some,
    ensures
        ({
            let r = converted(u, c)->Ok_0;
            let vs = service_values(u, "Environment"@);
            let fs = service_values(u, "EnvironmentFile"@);
            let ef = r.main_service.env_files;
            let k: int = if vs.len() > 0 { 1 } else { 0 };
            &&& vs.len() == 0 <==> r.env_file_content is None
            &&& ef.len() == fs.len() + k
            &&& vs.len() > 0 ==> ef[0] == crate::paths::path_join(
                output_dir_for(c, u.source_path),
                service_name(u.source_path) + ".env"@,
            )
            &&& forall|i: int|
                0 <= i < fs.len() ==> #[trigger] ef[i + k] == (if crate::text::starts_with_char(
                    fs[i],
                    '-',
                ) {
                    fs[i].drop_first()
                } else {
                    fs[i]
                })
        }),
{
    let vs = service_values(u, "Environment"@);
    let fs = service_values(u, "EnvironmentFile"@);
    let r = converted(u, c)->Ok_0;
    let ef = r.main_service.env_files;
    let k: int = if vs.len() > 0 { 1 } else { 0 };
    let tail = fs.map_values(|v: Seq<char>| crate::converter::strip_dash(v));
    assert forall|i: int| 0 <= i < fs.len() implies #[trigger] ef[i + k] == (if crate::text::starts_with_char(
        fs[i],
        '-',
    ) {
        fs[i].drop_first()
    } else {
        fs[i]
    }) by {
        assert(ef[i + k] == tail[i]);
    }
}

/// Joining a directory and a relative name puts exactly one `/` between
/// them; an absolute name stands for itself.
pub proof fn law_path_join(dir: Seq<char>, name: Seq<char>)
    ensures
        dir.len() > 0 && dir.last() != '/' && !crate::text::starts_with_char(name, '/')
            ==> crate::paths::path_join(dir, name) == dir + "/"@ + name,
        dir.len() > 0 && dir.last() == '/' && !crate::text::starts_with_char(name, '/')
            ==> crate::paths::path_join(dir, name) == dir + name,
        crate::text::starts_with_char(name, '/') ==> crate::paths::path_join(dir, name) == name,
{
    reveal_strlit("/");
    assert(seq!['/'] =~= "/"@);
}

/// An `Environment=` value written plainly is a line of the env-file as it
/// stands; one wrapped in double or single quotes loses the quotes.
pub proof fn law_environment_values(v: Seq<char>)
    requires
        v.len() > 0,
        v[0] != '"' && v[0] != '\'',
        v.last() != '"' && v.last() != '\'',
    ensures
        crate::converter::env_assignment(v) == v,
        crate::converter::env_assignment(seq!['"'] + v + seq!['"']) == v,
        crate::converter::env_assignment(seq!['\''] + v + seq!['\'']) == v,
{
    use_trim_plain(v, '"');
    use_trim_plain(v, '\'');
    let dq = seq!['"'] + v + seq!['"'];
    use_trim_wrapped(v, '"');
    let sq = seq!['\''] + v + seq!['\''];
    use_trim_wrapped(v, '\'');
    use_trim_plain(sq, '"');
}

proof fn use_trim_plain(v: Seq<char>, q: char)
    requires
        v.len() > 0,
        v[0] != q,
        v.last() != q,
    ensures
        crate::text::trim_c(v, crate::text::CharClass::Is(q)) == v,
{
    assert(crate::text::trim_start_c(v, crate::text::CharClass::Is(q)) == v);
    assert(crate::text::trim_end_c(v, crate::text::CharClass::Is(q)) == v);
}

proof fn use_trim_wrapped(v: Seq<char>, q: char)
    requires
        v.len() > 0,
        v[0] != q,
        v.last() != q,
    ensures
        crate::text::trim_c(seq![q] + v + seq![q], crate::text::CharClass::Is(q)) == v,
{
    let cls = crate::text::CharClass::Is(q);
    let w = seq![q] + v + seq![q];
    assert(w.drop_first() =~= v + seq![q]);
    assert(crate::text::trim_start_c(v + seq![q], cls) == v + seq![q]);
    assert(crate::text::trim_start_c(w, cls) == v + seq![q]);
    assert((v + seq![q]).drop_last() =~= v);
    assert(crate::text::trim_end_c(v, cls) == v);
    assert(crate::text::trim_end_c(v + seq![q], cls) == v);
}

/// The generated env-file holds one line per `Environment=` value, in
/// order, each value with its surrounding quotes removed.
pub proof fn law_environment_content(u: UnitView, c: ConfigView, vs: Seq<Seq<char>>, v: Seq<char>)
    requires
        service_value(u, "ExecStart"@) is Some,
    ensures
        service_values(u, "Environment"@).len() > 0 ==> converted(u, c)->Ok_0.env_file_content
            == Some(crate::converter::env_lines(service_values(u, "Environment"@))),
        crate::converter::env_lines(Seq::<Seq<char>>::empty()) == Seq::<char>::empty(),
        crate::converter::env_lines(vs.push(v)) == crate::converter::env_lines(vs)
            + crate::converter::env_assignment(v) + "\n"@,
{
    reveal_strlit("\n");
    assert(vs.push(v).drop_last() =~= vs);
    assert(seq!['\n'] =~= "\n"@);
}

// ---------------------------------------------------------------------
// Directives dinit has no counterpart for
// ---------------------------------------------------------------------

/// An out-of-scope directive gives one warning naming it: sandboxing and
/// cgroup directives of `[Service]` at `Info`, conditions of `[Unit]` and
/// socket-activation directives of `[Socket]` at `Warn`; any other
/// directive gives none.
pub proof fn law_out_of_scope_warning(k: Seq<char>)
    ensures
        crate::scope::is_sandboxing(k) ==> crate::scope::scope_warning(crate::scope::ScopeKind::Service, k)
            == seq![
            crate::model::warning(
                k,
                k + " (sandboxing) not supported — skipped"@,
                crate::model::Severity::Info,
            ),
        ],
        !crate::scope::is_sandboxing(k) && crate::scope::is_cgroup(k) ==> crate::scope::scope_warning(
            crate::scope::ScopeKind::Service,
            k,
        ) == seq![
            crate::model::warning(k, k + " (cgroup) not supported — skipped"@, crate::model::Severity::Info),
        ],
        !crate::scope::is_sandboxing(k) && !crate::scope::is_cgroup(k) ==> crate::scope::scope_warning(
            crate::scope::ScopeKind::Service,
            k,
        ) == Seq::<WarningView>::empty(),
        crate::scope::is_conditional(k) ==> crate::scope::scope_warning(crate::scope::ScopeKind::Unit, k)
            == seq![
            crate::model::warning(
                k,
                k + " (conditional) not supported — skipped"@,
                crate::model::Severity::Warn,
            ),
        ],
        !crate::scope::is_conditional(k) ==> crate::scope::scope_warning(
            crate::scope::ScopeKind::Unit,
            k,
        ) == Seq::<WarningView>::empty(),
        crate::scope::is_socket_directive(k) ==> crate::scope::scope_warning(
            crate::scope::ScopeKind::Socket,
            k,
        ) == seq![
            crate::model::warning(
                k,
                k + " (socket activation) not supported — skipped"@,
                crate::model::Severity::Warn,
            ),
        ],
        !crate::scope::is_socket_directive(k) ==> crate::scope::scope_warning(
            crate::scope::ScopeKind::Socket,
            k,
        ) == Seq::<WarningView>::empty(),
{
}

/// The directives the README names are among those reported: the
/// sandboxing `ProtectSystem`, `PrivateTmp`, `NoNewPrivileges`; the cgroup
/// `Slice`, `CPUQuota`, `MemoryMax`, `TasksMax`; the conditions
/// `ConditionPathExists`, `AssertPathExists`; the socket `ListenStream`,
/// `ListenDatagram`.
pub proof fn law_named_out_of_scope_directives()
    ensures
        crate::scope::is_sandboxing("ProtectSystem"@),
        crate::scope::is_sandboxing("PrivateTmp"@),
        crate::scope::is_sandboxing("NoNewPrivileges"@),
        crate::scope::is_cgroup("Slice"@),
        crate::scope::is_cgroup("CPUQuota"@),
        crate::scope::is_cgroup("MemoryMax"@),
        crate::scope::is_cgroup("TasksMax"@),
        crate::scope::is_conditional("ConditionPathExists"@),
        crate::scope::is_conditional("AssertPathExists"@),
        crate::scope::is_socket_directive("ListenStream"@),
        crate::scope::is_socket_directive("ListenDatagram"@),
{
}

// ---------------------------------------------------------------------
// Which unit files are converted
// ---------------------------------------------------------------------

/// A unit file given on the command line is converted exactly when its
/// extension is `service` and its stem holds no `@`; otherwise it is
/// refused as having no extension, another extension (named), or being a
/// template.
pub proof fn law_unit_file_check(p: Seq<char>)
    ensures
        crate::paths::extension(p) is None ==> crate::units::unit_file_check(p) is NoExtension,
        crate::paths::extension(p) is Some && crate::paths::extension(p)->Some_0 != "service"@
            ==> crate::units::unit_file_check(p) == crate::units::UnitFileCheckView::WrongExtension(
            crate::paths::extension(p)->Some_0,
        ),
        crate::paths::extension(p) == Some("service"@) && stem_has_at(p)
            ==> crate::units::unit_file_check(p) is Template,
        crate::paths::extension(p) == Some("service"@) && !stem_has_at(p)
            ==> crate::units::unit_file_check(p) is Service,
{
}

/// The file stem of `p` holds an `@` (a template or instance unit).
pub open spec fn stem_has_at(p: Seq<char>) -> bool {
    match crate::paths::file_stem(p) {
        Some(st) => contains_char(st, '@'),
        None => false,
    }
}

/// The file name of `p` is listed in `ignored`.
pub open spec fn name_listed(p: Seq<char>, ignored: Seq<Seq<char>>) -> bool {
    match crate::paths::file_name(p) {
        Some(n) => ignored.contains(n),
        None => false,
    }
}

/// The hook passes over lines that do not name a `.service` file, skips
/// (and counts) templates and units listed in `ignored_units`, and
/// converts the others at their path from the filesystem root.
pub proof fn law_hook_decision(line: Seq<char>, ignored: Seq<Seq<char>>)
    ensures
        ({
            let p = trim(line);
            let svc = crate::paths::extension(p) == Some("service"@);
            let tmpl = stem_has_at(p);
            let ign = name_listed(p, ignored);
            let d = crate::units::hook_decision(line, ignored);
            &&& !svc ==> d is Pass
            &&& svc && tmpl ==> d is SkipTemplate
            &&& svc && !tmpl && ign ==> d is SkipIgnored
            &&& svc && !tmpl && !ign && p.len() > 0 && p[0] == '/' ==> d
                == crate::units::HookActionView::Convert(p)
            &&& svc && !tmpl && !ign && !(p.len() > 0 && p[0] == '/') ==> d
                == crate::units::HookActionView::Convert("/"@ + p)
        }),
{
    reveal_strlit("/");
    let p = trim(line);
    if !(p.len() > 0 && p[0] == '/') {
        assert(crate::paths::path_join("/"@, p) == "/"@ + p);
    }
}

} // verus!
