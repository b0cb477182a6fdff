//! The mapping of a systemd service unit onto dinit services, scripts,
//! env-file content and warnings.

use vstd::prelude::*;

use crate::config::{output_dir_for, Config, ConfigView};
use crate::error::{ConvertError, ConvertErrorView};
use crate::model::{
    opt_service_view, push_warning, warning, warnings_view, ConversionResult, DinitService,
    DinitType, RestartPolicy, ResultView, ServiceView, Severity, Warning, WarningView,
};
use crate::numeral::{restart_delay, restart_delay_text};
use crate::parser::{lookup, lookup_all, SystemdUnit, UnitView};
use crate::paths::{file_name_of, file_stem, path_join, path_join_exec, stem_of_exec};
use crate::scope::{out_of_scope_warnings, warn_out_of_scope};
use crate::text::{
    is_alphabetic, is_alphanumeric, char_is_alphabetic, char_is_alphanumeric, chars_of, contains_char,
    contains_in, ends_with, ends_with_char, ends_with_exec, is_ws, is_ws_char, push_all, push_str,
    slice_of, starts_with_char, str_eq, string_of, trim, trim_c, trim_range, CharClass,
};

verus! {

// ---------------------------------------------------------------------
// `-` prefixes and wrapper-script commands
// ---------------------------------------------------------------------

/// A command split into whether it had systemd's `-` (ignore failure)
/// prefix and the command itself, both trimmed.
pub open spec fn dash_split(cmd: Seq<char>) -> (bool, Seq<char>) {
    let c = trim(cmd);
    if starts_with_char(c, '-') {
        (true, trim(c.drop_first()))
    } else {
        (false, c)
    }
}

/// Splits off systemd's `-` prefix, which marks a command whose failure is
/// ignored.
pub fn parse_dash_prefix(cmd: &str) -> (r: (bool, String))
    ensures
        (r.0, r.1@) == dash_split(cmd@),
{
    let c = chars_of(cmd);
    let (a, b) = trim_range(&c, 0, c.len(), CharClass::Space);
    assert(c@.subrange(0, c.len() as int) =~= c@);
    if a < b && c[a] == '-' {
        let (x, y) = trim_range(&c, a + 1, b, CharClass::Space);
        assert(c@.subrange(a + 1, b as int) =~= c@.subrange(a as int, b as int).drop_first());
        (true, string_of(&slice_of(&c, x, y)))
    } else {
        (false, string_of(&slice_of(&c, a, b)))
    }
}

/// The command that runs a generated wrapper script.
pub open spec fn script_command(dir: Seq<char>, name: Seq<char>, suffix: Seq<char>) -> Seq<char> {
    "/bin/sh "@ + dir + "/"@ + name + "-"@ + suffix + ".sh"@
}

/// `/bin/sh <output_dir>/<service>-<suffix>.sh`.
pub fn build_script_command(config: &Config, service_name: &str, suffix: &str) -> (r: String)
    ensures
        r@ == script_command(config@.output_dir, service_name@, suffix@),
{
    script_command_in(config.output_dir.as_str(), service_name, suffix)
}

/// `/bin/sh <dir>/<service>-<suffix>.sh`.
fn script_command_in(dir: &str, service_name: &str, suffix: &str) -> (r: String)
    ensures
        r@ == script_command(dir@, service_name@, suffix@),
{
    let mut v: Vec<char> = Vec::new();
    push_str(&mut v, "/bin/sh ");
    push_str(&mut v, dir);
    push_str(&mut v, "/");
    push_str(&mut v, service_name);
    push_str(&mut v, "-");
    push_str(&mut v, suffix);
    push_str(&mut v, ".sh");
    string_of(&v)
}

// ---------------------------------------------------------------------
// Restart=
// ---------------------------------------------------------------------

pub open spec fn restarts_on_failure(s: Seq<char>) -> bool {
    s == "on-failure"@ || s == "on-abnormal"@ || s == "on-abort"@ || s == "on-watchdog"@
}

/// The dinit restart policy and smooth-recovery flag for a `Restart=` value.
pub open spec fn restart_mapping(v: Option<Seq<char>>) -> (RestartPolicy, bool) {
    match v {
        None => (RestartPolicy::Never, false),
        Some(s) => if s == "no"@ {
            (RestartPolicy::Never, false)
        } else if s == "always"@ || s == "on-success"@ {
            (RestartPolicy::Always, true)
        } else if restarts_on_failure(s) {
            (RestartPolicy::OnFailure, true)
        } else {
            (RestartPolicy::Never, false)
        },
    }
}

/// The warnings a `Restart=` value gives.
pub open spec fn restart_warnings(v: Option<Seq<char>>) -> Seq<WarningView> {
    match v {
        None => seq![],
        Some(s) => if s == "no"@ || s == "always"@ || restarts_on_failure(s) {
            seq![]
        } else if s == "on-success"@ {
            seq![
                warning(
                    "Restart"@,
                    "on-success maps to always-restart; dinit has no clean-exit-only restart mode"@,
                    Severity::Warn,
                ),
            ]
        } else {
            seq![
                warning(
                    "Restart"@,
                    "unknown restart value '"@ + s + "' — defaulting to no restart"@,
                    Severity::Warn,
                ),
            ]
        },
    }
}

pub proof fn lemma_restart_words_distinct()
    ensures
        "on-success"@ != "no"@,
        "on-success"@ != "always"@,
        !restarts_on_failure("on-success"@),
{
    reveal_strlit("on-success");
    reveal_strlit("no");
    reveal_strlit("always");
    reveal_strlit("on-failure");
    reveal_strlit("on-abnormal");
    reveal_strlit("on-abort");
    reveal_strlit("on-watchdog");
    assert("on-success"@.len() != "no"@.len());
    assert("on-success"@.len() != "always"@.len());
    assert("on-success"@[3] != "on-failure"@[3]);
    assert("on-success"@.len() != "on-abnormal"@.len());
    assert("on-success"@.len() != "on-abort"@.len());
    assert("on-success"@.len() != "on-watchdog"@.len());
}

/// Maps `Restart=` to a dinit restart policy and smooth-recovery flag.
pub fn convert_restart(restart_value: Option<&str>, warnings: &mut Vec<Warning>) -> (r: (
    RestartPolicy,
    bool,
))
    ensures
        r == restart_mapping(restart_value.deep_view()),
        warnings_view(final(warnings)@) == warnings_view(old(warnings)@) + restart_warnings(
            restart_value.deep_view(),
        ),
{
    proof {
        lemma_restart_words_distinct();
    }
    let ghost w0 = warnings_view(warnings@);
    match restart_value {
        None => {
            assert(w0 + seq![] =~= w0);
            (RestartPolicy::Never, false)
        },
        Some(s) => {
            if str_eq(s, "no") {
                assert(w0 + seq![] =~= w0);
                (RestartPolicy::Never, false)
            } else if str_eq(s, "always") {
                assert(w0 + seq![] =~= w0);
                (RestartPolicy::Always, true)
            } else if str_eq(s, "on-success") {
                push_warning(
                    warnings,
                    String::from_str("Restart"),
                    String::from_str(
                        "on-success maps to always-restart; dinit has no clean-exit-only restart mode",
                    ),
                    Severity::Warn,
                );
                (RestartPolicy::Always, true)
            } else if str_eq(s, "on-failure") || str_eq(s, "on-abnormal") || str_eq(s, "on-abort")
                || str_eq(s, "on-watchdog") {
                assert(w0 + seq![] =~= w0);
                (RestartPolicy::OnFailure, true)
            } else {
                let mut m: Vec<char> = Vec::new();
                push_str(&mut m, "unknown restart value '");
                push_str(&mut m, s);
                push_str(&mut m, "' — defaulting to no restart");
                push_warning(warnings, String::from_str("Restart"), string_of(&m), Severity::Warn);
                (RestartPolicy::Never, false)
            }
        },
    }
}

// ---------------------------------------------------------------------
// Specifiers (%n, %N and unknown ones)
// ---------------------------------------------------------------------

/// Every non-overlapping occurrence of the two characters `a b`, from the
/// left, replaced by `rep` (`str::replace` with a two-character pattern).
pub open spec fn replace_pair(s: Seq<char>, a: char, b: char, rep: Seq<char>) -> Seq<char>
    decreases s.len(),
{
    if s.len() == 0 {
        seq![]
    } else if s.len() >= 2 && s[0] == a && s[1] == b {
        rep + replace_pair(s.skip(2), a, b, rep)
    } else {
        seq![s[0]] + replace_pair(s.drop_first(), a, b, rep)
    }
}

fn replace_pair_exec(s: &Vec<char>, a: char, b: char, rep: &Vec<char>) -> (r: Vec<char>)
    ensures
        r@ == replace_pair(s@, a, b, rep@),
{
    let mut out: Vec<char> = Vec::new();
    let mut i: usize = 0;
    assert(s@.skip(0) =~= s@);
    while i < s.len()
        invariant
            i <= s.len(),
            replace_pair(s@, a, b, rep@) == out@ + replace_pair(s@.skip(i as int), a, b, rep@),
        decreases s.len() - i,
    {
        let ghost rest = s@.skip(i as int);
        let ghost o0 = out@;
        if i + 1 < s.len() && s[i] == a && s[i + 1] == b {
            push_all(&mut out, rep);
            assert(rest.skip(2) =~= s@.skip(i + 2));
            assert(o0 + (rep@ + replace_pair(rest.skip(2), a, b, rep@)) =~= out@ + replace_pair(
                s@.skip(i + 2),
                a,
                b,
                rep@,
            ));
            i = i + 2;
        } else {
            out.push(s[i]);
            assert(rest.drop_first() =~= s@.skip(i + 1));
            assert(o0 + (seq![rest[0]] + replace_pair(rest.drop_first(), a, b, rep@)) =~= out@
                + replace_pair(s@.skip(i + 1), a, b, rep@));
            i = i + 1;
        }
    }
    assert(replace_pair(s@.skip(i as int), a, b, rep@) =~= Seq::<char>::empty());
    assert(out@ + Seq::<char>::empty() =~= out@);
    out
}

/// Removes every `%` followed by an alphabetic character together with that
/// character, collecting the distinct removed letters in order of first
/// appearance.
pub open spec fn strip_specifiers(s: Seq<char>, out: Seq<char>, seen: Seq<char>) -> (
    Seq<char>,
    Seq<char>,
)
    decreases s.len(),
{
    if s.len() == 0 {
        (out, seen)
    } else if s[0] == '%' && s.len() >= 2 && is_alphabetic(s[1]) {
        strip_specifiers(
            s.skip(2),
            out,
            if seen.contains(s[1]) {
                seen
            } else {
                seen.push(s[1])
            },
        )
    } else {
        strip_specifiers(s.drop_first(), out.push(s[0]), seen)
    }
}

/// `%n` replaced by the unit name and `%N` by the service name.
pub open spec fn expand_specifiers(input: Seq<char>, name: Seq<char>) -> Seq<char> {
    replace_pair(replace_pair(input, '%', 'n', name + ".service"@), '%', 'N', name)
}

pub open spec fn specifier_warning(c: char) -> WarningView {
    warning("ExecStart"@, "unknown specifier %"@ + seq![c] + " removed"@, Severity::Warn)
}

/// The command with known specifiers replaced and unknown ones removed.
pub open spec fn specifiers_replaced(input: Seq<char>, name: Seq<char>) -> Seq<char> {
    strip_specifiers(expand_specifiers(input, name), seq![], seq![]).0
}

/// One warning per distinct unknown specifier, in order of appearance.
pub open spec fn specifier_warnings(input: Seq<char>, name: Seq<char>) -> Seq<WarningView> {
    strip_specifiers(expand_specifiers(input, name), seq![], seq![]).1.map_values(
        |c: char| specifier_warning(c),
    )
}

/// Replaces `%n` and `%N`, and removes unknown specifiers with one warning
/// per distinct specifier.
pub fn replace_specifiers(input: &str, service_name: &str, warnings: &mut Vec<Warning>) -> (r:
    String)
    ensures
        r@ == specifiers_replaced(input@, service_name@),
        warnings_view(final(warnings)@) == warnings_view(old(warnings)@) + specifier_warnings(
            input@,
            service_name@,
        ),
{
    let s0 = chars_of(input);
    let name = chars_of(service_name);
    let mut unit_name = slice_of(&name, 0, name.len());
    push_str(&mut unit_name, ".service");
    assert(name@.subrange(0, name.len() as int) =~= name@);
    let s1 = replace_pair_exec(&s0, '%', 'n', &unit_name);
    let s = replace_pair_exec(&s1, '%', 'N', &name);
    let ghost full = strip_specifiers(s@, seq![], seq![]);
    let mut out: Vec<char> = Vec::new();
    let mut seen: Vec<char> = Vec::new();
    let mut i: usize = 0;
    assert(s@.skip(0) =~= s@);
    while i < s.len()
        invariant
            i <= s.len(),
            full == strip_specifiers(s@.skip(i as int), out@, seen@),
        decreases s.len() - i,
    {
        let ghost rest = s@.skip(i as int);
        if s[i] == '%' && i + 1 < s.len() && char_is_alphabetic(s[i + 1]) {
            let c = s[i + 1];
            assert(rest.skip(2) =~= s@.skip(i + 2));
            if !contains_in(&seen, c) {
                seen.push(c);
            }
            i = i + 2;
        } else {
            out.push(s[i]);
            assert(rest.drop_first() =~= s@.skip(i + 1));
            i = i + 1;
        }
    }
    assert(s@.skip(i as int).len() == 0);
    let ghost w0 = warnings_view(warnings@);
    let mut j: usize = 0;
    while j < seen.len()
        invariant
            j <= seen.len(),
            warnings_view(warnings@) == w0 + seen@.take(j as int).map_values(
                |c: char| specifier_warning(c),
            ),
        decreases seen.len() - j,
    {
        let mut m: Vec<char> = Vec::new();
        push_str(&mut m, "unknown specifier %");
        m.push(seen[j]);
        push_str(&mut m, " removed");
        let ghost before = warnings_view(warnings@);
        push_warning(warnings, String::from_str("ExecStart"), string_of(&m), Severity::Warn);
        assert(m@ =~= "unknown specifier %"@ + seq![seen@[j as int]] + " removed"@);
        assert(seen@.take(j + 1).map_values(|c: char| specifier_warning(c)) =~= seen@.take(
            j as int,
        ).map_values(|c: char| specifier_warning(c)).push(specifier_warning(seen@[j as int])));
        j = j + 1;
    }
    assert(seen@.take(seen.len() as int) =~= seen@);
    string_of(&out)
}

// ---------------------------------------------------------------------
// $VAR references in commands
// ---------------------------------------------------------------------

/// Whitespace-separated words (`str::split_whitespace`), read left to
/// right with the word in progress `cur` and the words found so far `acc`.
pub open spec fn words_acc(s: Seq<char>, cur: Seq<char>, acc: Seq<Seq<char>>) -> Seq<Seq<char>>
    decreases s.len(),
{
    if s.len() == 0 {
        if cur.len() > 0 {
            acc.push(cur)
        } else {
            acc
        }
    } else if is_ws(s[0]) {
        words_acc(
            s.drop_first(),
            seq![],
            if cur.len() > 0 {
                acc.push(cur)
            } else {
                acc
            },
        )
    } else {
        words_acc(s.drop_first(), cur.push(s[0]), acc)
    }
}

pub open spec fn words(s: Seq<char>) -> Seq<Seq<char>> {
    words_acc(s, seq![], seq![])
}

pub fn split_words(s: &Vec<char>) -> (r: Vec<Vec<char>>)
    ensures
        r.deep_view() == words(s@),
{
    let mut acc: Vec<Vec<char>> = Vec::new();
    let mut cur: Vec<char> = Vec::new();
    let mut i: usize = 0;
    assert(s@.skip(0) =~= s@);
    assert(acc.deep_view() =~= Seq::<Seq<char>>::empty());
    while i < s.len()
        invariant
            i <= s.len(),
            words(s@) == words_acc(s@.skip(i as int), cur@, acc.deep_view()),
        decreases s.len() - i,
    {
        let ghost rest = s@.skip(i as int);
        assert(rest.drop_first() =~= s@.skip(i + 1));
        if is_ws_char(s[i]) {
            if cur.len() > 0 {
                let ghost before = acc.deep_view();
                assert(cur.deep_view() =~= cur@);
                acc.push(cur);
                assert(acc.deep_view() =~= before.push(cur@));
            }
            cur = Vec::new();
            assert(cur@ =~= Seq::<char>::empty());
        } else {
            cur.push(s[i]);
        }
        i = i + 1;
    }
    assert(s@.skip(i as int).len() == 0);
    if cur.len() > 0 {
        let ghost before = acc.deep_view();
        assert(cur.deep_view() =~= cur@);
        acc.push(cur);
        assert(acc.deep_view() =~= before.push(cur@));
    }
    acc
}

/// Words joined with single spaces.
pub open spec fn join_words(ts: Seq<Seq<char>>) -> Seq<char>
    decreases ts.len(),
{
    if ts.len() == 0 {
        seq![]
    } else if ts.len() == 1 {
        ts[0]
    } else {
        join_words(ts.drop_last()) + seq![' '] + ts.last()
    }
}

pub open spec fn is_var_char(c: char) -> bool {
    is_alphanumeric(c) || c == '_'
}

pub open spec fn is_var_name(s: Seq<char>) -> bool {
    s.len() > 0 && forall|i: int| 0 <= i < s.len() ==> is_var_char(#[trigger] s[i])
}

/// The variable a `$VAR` or `${VAR}` token names, before checking it.
pub open spec fn var_inner(t: Seq<char>) -> Seq<char> {
    let rest = t.drop_first();
    if starts_with_char(rest, '{') && ends_with_char(rest, '}') {
        rest.subrange(1, rest.len() - 1)
    } else {
        rest
    }
}

/// A token that is exactly `$VAR` or `${VAR}` becomes dinit's word-splitting
/// `$/VAR`; any other token is kept.
pub open spec fn env_token(t: Seq<char>) -> Seq<char> {
    if starts_with_char(t, '$') && is_var_name(var_inner(t)) {
        "$/"@ + var_inner(t)
    } else {
        t
    }
}

/// The command with standalone variable tokens rewritten; commands without
/// `$` are kept as they are, others are re-joined with single spaces.
pub open spec fn env_refs(cmd: Seq<char>) -> Seq<char> {
    if !contains_char(cmd, '$') {
        cmd
    } else {
        join_words(words(cmd).map_values(|t: Seq<char>| env_token(t)))
    }
}

pub fn is_var_name_range(s: &Vec<char>, lo: usize, hi: usize) -> (r: bool)
    requires
        lo <= hi <= s.len(),
    ensures
        r == is_var_name(s@.subrange(lo as int, hi as int)),
{
    if lo == hi {
        return false;
    }
    let mut i = lo;
    while i < hi
        invariant
            lo <= i <= hi <= s.len(),
            forall|k: int| lo <= k < i ==> is_var_char(#[trigger] s@[k]),
        decreases hi - i,
    {
        if !(char_is_alphanumeric(s[i]) || s[i] == '_') {
            assert(s@.subrange(lo as int, hi as int)[i - lo] == s@[i as int]);
            return false;
        }
        i = i + 1;
    }
    assert forall|k: int| 0 <= k < hi - lo implies is_var_char(
        #[trigger] s@.subrange(lo as int, hi as int)[k],
    ) by {
        assert(s@.subrange(lo as int, hi as int)[k] == s@[lo + k]);
    }
    true
}

fn env_token_exec(t: &Vec<char>) -> (r: Vec<char>)
    ensures
        r@ == env_token(t@),
{
    assert(t@.subrange(0, t.len() as int) =~= t@);
    if t.len() == 0 || t[0] != '$' {
        return slice_of(t, 0, t.len());
    }
    let n = t.len();
    let (lo, hi) = if n >= 3 && t[1] == '{' && t[n - 1] == '}' {
        (2, n - 1)
    } else {
        (1, n)
    };
    proof {
        let rest = t@.drop_first();
        if n >= 3 && t@[1] == '{' && t@[n - 1] == '}' {
            assert(rest.subrange(1, rest.len() - 1) =~= t@.subrange(2, n - 1));
        } else {
            assert(rest =~= t@.subrange(1, n as int));
            if starts_with_char(rest, '{') && ends_with_char(rest, '}') {
                assert(rest.len() >= 2);
            }
        }
    }
    if is_var_name_range(t, lo, hi) {
        let mut out: Vec<char> = Vec::new();
        push_str(&mut out, "$/");
        let inner = slice_of(t, lo, hi);
        push_all(&mut out, &inner);
        out
    } else {
        slice_of(t, 0, t.len())
    }
}

/// Rewrites standalone `$VAR` / `${VAR}` arguments to dinit's `$/VAR`
/// word-splitting form; embedded references stay as they are.
pub fn convert_env_refs(cmd: String) -> (r: String)
    ensures
        r@ == env_refs(cmd@),
{
    let c = chars_of(cmd.as_str());
    if !contains_in(&c, '$') {
        return cmd;
    }
    let toks = split_words(&c);
    let ghost mapped = toks.deep_view().map_values(|t: Seq<char>| env_token(t));
    let mut out: Vec<char> = Vec::new();
    let mut j: usize = 0;
    assert(mapped.take(0) =~= Seq::<Seq<char>>::empty());
    assert forall|k: int| 0 <= k < toks.len() implies #[trigger] mapped[k] == env_token(toks@[k]@) by {
        assert(toks.deep_view()[k] =~= toks@[k]@);
    }
    while j < toks.len()
        invariant
            j <= toks.len(),
            mapped.len() == toks.len(),
            forall|k: int| 0 <= k < toks.len() ==> #[trigger] mapped[k] == env_token(toks@[k]@),
            out@ == join_words(mapped.take(j as int)),
        decreases toks.len() - j,
    {
        assert(toks.deep_view()[j as int] =~= toks@[j as int]@);
        let tk = env_token_exec(&toks[j]);
        let ghost o0 = out@;
        if j > 0 {
            out.push(' ');
        }
        push_all(&mut out, &tk);
        assert(mapped.take(j + 1).drop_last() =~= mapped.take(j as int));
        if j == 0 {
            assert(out@ =~= mapped.take(1)[0]);
        } else {
            assert(out@ =~= o0 + seq![' '] + mapped.take(j + 1).last());
        }
        j = j + 1;
    }
    assert(mapped.take(toks.len() as int) =~= mapped);
    string_of(&out)
}


// ---------------------------------------------------------------------
// Reading the unit
// ---------------------------------------------------------------------

/// The last value of `key` in `[Service]`.
pub open spec fn service_value(u: UnitView, key: Seq<char>) -> Option<Seq<char>> {
    lookup(u.sections, "Service"@, key)
}

/// All values of `key` in `[Service]`.
pub open spec fn service_values(u: UnitView, key: Seq<char>) -> Seq<Seq<char>> {
    lookup_all(u.sections, "Service"@, key)
}

/// All values of `key` in `[Unit]`.
pub open spec fn unit_values(u: UnitView, key: Seq<char>) -> Seq<Seq<char>> {
    lookup_all(u.sections, "Unit"@, key)
}

fn owned(v: Option<&str>) -> (r: Option<String>)
    ensures
        r.deep_view() == v.deep_view(),
{
    match v {
        Some(s) => Some(String::from_str(s)),
        None => None,
    }
}

// ---------------------------------------------------------------------
// The service name
// ---------------------------------------------------------------------

/// The service name: the file stem of the unit's path, `unknown` when the
/// path has no file name.
pub open spec fn service_name(path: Seq<char>) -> Seq<char> {
    match file_stem(path) {
        Some(s) => s,
        None => "unknown"@,
    }
}

pub fn service_name_of(path: &str) -> (r: String)
    ensures
        r@ == service_name(path@),
{
    let p = chars_of(path);
    match file_name_of(&p) {
        Some(n) => string_of(&stem_of_exec(&n)),
        None => String::from_str("unknown"),
    }
}

// ---------------------------------------------------------------------
// Type=
// ---------------------------------------------------------------------

/// The dinit type for a systemd `Type=` value, given whether `PIDFile=` is
/// set.
pub open spec fn type_mapping(raw: Seq<char>, has_pid_file: bool) -> DinitType {
    if raw == "simple"@ {
        DinitType::Process
    } else if raw == "forking"@ {
        if has_pid_file {
            DinitType::BgProcess
        } else {
            DinitType::Process
        }
    } else if raw == "oneshot"@ {
        DinitType::Scripted
    } else {
        DinitType::Process
    }
}

/// The warning a `Type=` value gives, if any.
pub open spec fn type_warnings(raw: Seq<char>, has_pid_file: bool) -> Seq<WarningView> {
    if raw == "simple"@ {
        seq![]
    } else if raw == "forking"@ {
        if has_pid_file {
            seq![]
        } else {
            seq![
                warning(
                    "Type"@,
                    "forking service has no PIDFile — falling back to process type"@,
                    Severity::Warn,
                ),
            ]
        }
    } else if raw == "oneshot"@ {
        seq![]
    } else if raw == "dbus"@ {
        seq![
            warning(
                "Type"@,
                "dbus activation not supported — falling back to process type"@,
                Severity::Warn,
            ),
        ]
    } else if raw == "notify"@ {
        seq![warning("Type"@, "notify not supported — falling back to process type"@, Severity::Warn)]
    } else {
        seq![
            warning(
                "Type"@,
                "unknown type '"@ + raw + "' — falling back to process"@,
                Severity::Warn,
            ),
        ]
    }
}

fn convert_type(raw: &str, has_pid_file: bool, warnings: &mut Vec<Warning>) -> (r: DinitType)
    ensures
        r == type_mapping(raw@, has_pid_file),
        warnings_view(final(warnings)@) == warnings_view(old(warnings)@) + type_warnings(
            raw@,
            has_pid_file,
        ),
{
    let ghost w0 = warnings_view(warnings@);
    if str_eq(raw, "simple") {
        assert(w0 + seq![] =~= w0);
        DinitType::Process
    } else if str_eq(raw, "forking") {
        if has_pid_file {
            assert(w0 + seq![] =~= w0);
            DinitType::BgProcess
        } else {
            push_warning(
                warnings,
                String::from_str("Type"),
                String::from_str("forking service has no PIDFile — falling back to process type"),
                Severity::Warn,
            );
            DinitType::Process
        }
    } else if str_eq(raw, "oneshot") {
        assert(w0 + seq![] =~= w0);
        DinitType::Scripted
    } else if str_eq(raw, "dbus") {
        push_warning(
            warnings,
            String::from_str("Type"),
            String::from_str("dbus activation not supported — falling back to process type"),
            Severity::Warn,
        );
        DinitType::Process
    } else if str_eq(raw, "notify") {
        push_warning(
            warnings,
            String::from_str("Type"),
            String::from_str("notify not supported — falling back to process type"),
            Severity::Warn,
        );
        DinitType::Process
    } else {
        let mut m: Vec<char> = Vec::new();
        push_str(&mut m, "unknown type '");
        push_str(&mut m, raw);
        push_str(&mut m, "' — falling back to process");
        push_warning(warnings, String::from_str("Type"), string_of(&m), Severity::Warn);
        DinitType::Process
    }
}

// ---------------------------------------------------------------------
// Environment= and EnvironmentFile=
// ---------------------------------------------------------------------

/// An `Environment=` value with surrounding double, then single, quotes
/// removed.
pub open spec fn env_assignment(v: Seq<char>) -> Seq<char> {
    trim_c(trim_c(v, CharClass::Is('"')), CharClass::Is('\''))
}

/// One line per `Environment=` value.
pub open spec fn env_lines(vs: Seq<Seq<char>>) -> Seq<char>
    decreases vs.len(),
{
    if vs.len() == 0 {
        seq![]
    } else {
        env_lines(vs.drop_last()) + env_assignment(vs.last()) + seq!['\n']
    }
}

/// An `EnvironmentFile=` path without systemd's `-` (ignore if missing).
pub open spec fn strip_dash(v: Seq<char>) -> Seq<char> {
    if starts_with_char(v, '-') {
        v.drop_first()
    } else {
        v
    }
}

/// Where the generated env-file goes.
pub open spec fn env_file_path(dir: Seq<char>, name: Seq<char>) -> Seq<char> {
    path_join(dir, name + ".env"@)
}

/// The env-files of the main service: the generated one when there are
/// `Environment=` values, then each `EnvironmentFile=` as given.
pub open spec fn environment_files(u: UnitView, dir: Seq<char>, name: Seq<char>) -> Seq<Seq<char>> {
    (if service_values(u, "Environment"@).len() > 0 {
        seq![env_file_path(dir, name)]
    } else {
        seq![]
    }) + service_values(u, "EnvironmentFile"@).map_values(|v: Seq<char>| strip_dash(v))
}

/// The content of the generated env-file.
pub open spec fn environment_content(u: UnitView) -> Option<Seq<char>> {
    let vs = service_values(u, "Environment"@);
    if vs.len() == 0 {
        None
    } else {
        Some(env_lines(vs))
    }
}

/// Collects `Environment=` values into the content of a generated env-file
/// and passes `EnvironmentFile=` paths through.
pub fn convert_environment(unit: &SystemdUnit, config: &Config, service_name: &str) -> (r: (
    Vec<String>,
    Option<String>,
))
    ensures
        r.0.deep_view() == environment_files(unit@, config@.output_dir, service_name@),
        r.1.deep_view() == environment_content(unit@),
{
    environment_in(unit, config.output_dir.as_str(), service_name)
}

/// [`convert_environment`] with the generated env-file placed in `out_dir`.
fn environment_in(unit: &SystemdUnit, out_dir: &str, service_name: &str) -> (r: (
    Vec<String>,
    Option<String>,
))
    ensures
        r.0.deep_view() == environment_files(unit@, out_dir@, service_name@),
        r.1.deep_view() == environment_content(unit@),
{
    let vals = unit.get_all("Service", "Environment");
    let mut files: Vec<String> = Vec::new();
    let mut content: Option<String> = None;
    if vals.len() > 0 {
        let mut text: Vec<char> = Vec::new();
        let mut j: usize = 0;
        assert(vals.deep_view().take(0) =~= Seq::<Seq<char>>::empty());
        while j < vals.len()
            invariant
                j <= vals.len(),
                text@ == env_lines(vals.deep_view().take(j as int)),
            decreases vals.len() - j,
        {
            let v = chars_of(vals[j]);
            let (a, b) = trim_range(&v, 0, v.len(), CharClass::Is('"'));
            assert(v@.subrange(0, v.len() as int) =~= v@);
            let w = slice_of(&v, a, b);
            let (c, d) = trim_range(&w, 0, w.len(), CharClass::Is('\''));
            assert(w@.subrange(0, w.len() as int) =~= w@);
            let x = slice_of(&w, c, d);
            push_all(&mut text, &x);
            text.push('\n');
            assert(vals.deep_view().take(j + 1).drop_last() =~= vals.deep_view().take(j as int));
            j = j + 1;
        }
        assert(vals.deep_view().take(vals.len() as int) =~= vals.deep_view());
        let mut comp = chars_of(service_name);
        push_str(&mut comp, ".env");
        let dir = chars_of(out_dir);
        files.push(string_of(&path_join_exec(&dir, &comp)));
        content = Some(string_of(&text));
    }
    let ghost head = files.deep_view();
    assert(head =~= if vals.deep_view().len() > 0 {
        seq![env_file_path(out_dir@, service_name@)]
    } else {
        Seq::<Seq<char>>::empty()
    });
    let efs = unit.get_all("Service", "EnvironmentFile");
    let mut k: usize = 0;
    assert(efs.deep_view().take(0).map_values(|v: Seq<char>| strip_dash(v)) =~= Seq::<
        Seq<char>,
    >::empty());
    assert(head + Seq::<Seq<char>>::empty() =~= head);
    while k < efs.len()
        invariant
            k <= efs.len(),
            files.deep_view() == head + efs.deep_view().take(k as int).map_values(
                |v: Seq<char>| strip_dash(v),
            ),
        decreases efs.len() - k,
    {
        let v = chars_of(efs[k]);
        let p = if v.len() > 0 && v[0] == '-' {
            let q = slice_of(&v, 1, v.len());
            assert(q@ =~= v@.drop_first());
            q
        } else {
            let q = slice_of(&v, 0, v.len());
            assert(q@ =~= v@);
            q
        };
        let ghost f0 = files.deep_view();
        files.push(string_of(&p));
        assert(files.deep_view() =~= f0.push(p@));
        assert(efs.deep_view().take(k + 1).map_values(|v: Seq<char>| strip_dash(v)) =~= efs.deep_view().take(
            k as int,
        ).map_values(|v: Seq<char>| strip_dash(v)).push(strip_dash(efs.deep_view()[k as int])));
        k = k + 1;
    }
    assert(efs.deep_view().take(efs.len() as int) =~= efs.deep_view());
    (files, content)
}

// ---------------------------------------------------------------------
// Requires=, Wants=, After=, Before=, Conflicts=
// ---------------------------------------------------------------------

/// The name without a `.service`, `.target`, `.socket`, `.mount`, `.path` or
/// `.timer` suffix (the first of these that matches).
pub open spec fn strip_unit_suffix(d: Seq<char>) -> Seq<char> {
    if ends_with(d, ".service"@) {
        d.take(d.len() - ".service"@.len())
    } else if ends_with(d, ".target"@) {
        d.take(d.len() - ".target"@.len())
    } else if ends_with(d, ".socket"@) {
        d.take(d.len() - ".socket"@.len())
    } else if ends_with(d, ".mount"@) {
        d.take(d.len() - ".mount"@.len())
    } else if ends_with(d, ".path"@) {
        d.take(d.len() - ".path"@.len())
    } else if ends_with(d, ".timer"@) {
        d.take(d.len() - ".timer"@.len())
    } else {
        d
    }
}

/// The dinit name of a systemd dependency: the configured mapping, or the
/// name without its unit suffix.
pub open spec fn resolve_dependency(dep: Seq<char>, m: Map<Seq<char>, Seq<char>>) -> Seq<char> {
    let d = trim(dep);
    if m.dom().contains(d) {
        m[d]
    } else {
        strip_unit_suffix(d)
    }
}

/// Every whitespace-separated name of every value, resolved, in order.
pub open spec fn resolve_values(vals: Seq<Seq<char>>, m: Map<Seq<char>, Seq<char>>) -> Seq<Seq<char>>
    decreases vals.len(),
{
    if vals.len() == 0 {
        seq![]
    } else {
        resolve_values(vals.drop_last(), m) + words(vals.last()).map_values(
            |w: Seq<char>| resolve_dependency(w, m),
        )
    }
}

pub open spec fn dependency_warnings(u: UnitView) -> Seq<WarningView> {
    (if unit_values(u, "Before"@).len() > 0 {
        seq![warning("Before"@, "Before= skipped (no direct dinit equivalent)"@, Severity::Info)]
    } else {
        seq![]
    }) + (if unit_values(u, "Conflicts"@).len() > 0 {
        seq![
            warning(
                "Conflicts"@,
                "Conflicts= has no direct dinit equivalent — skipped"@,
                Severity::Warn,
            ),
        ]
    } else {
        seq![]
    })
}

fn strip_suffix_exec(d: &Vec<char>, suffix: &str) -> (r: Option<Vec<char>>)
    ensures
        match r {
            Some(v) => ends_with(d@, suffix@) && v@ == d@.take(d@.len() - suffix@.len()),
            None => !ends_with(d@, suffix@),
        },
{
    let s = chars_of(suffix);
    if ends_with_exec(d, &s) {
        Some(slice_of(d, 0, d.len() - s.len()))
    } else {
        None
    }
}

fn strip_unit_suffix_exec(d: &Vec<char>) -> (r: Vec<char>)
    ensures
        r@ == strip_unit_suffix(d@),
{
    if let Some(v) = strip_suffix_exec(d, ".service") {
        return v;
    }
    if let Some(v) = strip_suffix_exec(d, ".target") {
        return v;
    }
    if let Some(v) = strip_suffix_exec(d, ".socket") {
        return v;
    }
    if let Some(v) = strip_suffix_exec(d, ".mount") {
        return v;
    }
    if let Some(v) = strip_suffix_exec(d, ".path") {
        return v;
    }
    if let Some(v) = strip_suffix_exec(d, ".timer") {
        return v;
    }
    assert(d@.subrange(0, d.len() as int) =~= d@);
    slice_of(d, 0, d.len())
}

fn resolve_dependency_exec(dep: &Vec<char>, config: &Config) -> (r: Vec<char>)
    ensures
        r@ == resolve_dependency(dep@, config@.dependency_map),
{
    let (a, b) = trim_range(dep, 0, dep.len(), CharClass::Space);
    assert(dep@.subrange(0, dep.len() as int) =~= dep@);
    let d = slice_of(dep, a, b);
    let ds = string_of(&d);
    match config.dependency_map.get(ds.as_str()) {
        Some(v) => chars_of(v.as_str()),
        None => strip_unit_suffix_exec(&d),
    }
}

fn resolve_list(vals: &Vec<&str>, config: &Config) -> (r: Vec<String>)
    ensures
        r.deep_view() == resolve_values(vals.deep_view(), config@.dependency_map),
{
    let ghost m = config@.dependency_map;
    let mut out: Vec<String> = Vec::new();
    let mut i: usize = 0;
    assert(vals.deep_view().take(0) =~= Seq::<Seq<char>>::empty());
    assert(out.deep_view() =~= Seq::<Seq<char>>::empty());
    while i < vals.len()
        invariant
            i <= vals.len(),
            m == config@.dependency_map,
            out.deep_view() == resolve_values(vals.deep_view().take(i as int), m),
        decreases vals.len() - i,
    {
        let v = chars_of(vals[i]);
        let ws = split_words(&v);
        let ghost o0 = out.deep_view();
        let ghost mapped = ws.deep_view().map_values(|w: Seq<char>| resolve_dependency(w, m));
        let mut j: usize = 0;
        assert(mapped.take(0) =~= Seq::<Seq<char>>::empty());
        assert(o0 + Seq::<Seq<char>>::empty() =~= o0);
        while j < ws.len()
            invariant
                j <= ws.len(),
                m == config@.dependency_map,
                mapped == ws.deep_view().map_values(|w: Seq<char>| resolve_dependency(w, m)),
                out.deep_view() == o0 + mapped.take(j as int),
            decreases ws.len() - j,
        {
            let r = resolve_dependency_exec(&ws[j], config);
            let ghost before = out.deep_view();
            out.push(string_of(&r));
            assert(ws.deep_view()[j as int] =~= ws@[j as int]@);
            assert(mapped.take(j + 1) =~= mapped.take(j as int).push(mapped[j as int]));
            assert(out.deep_view() =~= before.push(r@));
            j = j + 1;
        }
        assert(mapped.take(ws.len() as int) =~= mapped);
        assert(vals.deep_view().take(i + 1).drop_last() =~= vals.deep_view().take(i as int));
        assert(vals.deep_view()[i as int] == v@);
        i = i + 1;
    }
    assert(vals.deep_view().take(vals.len() as int) =~= vals.deep_view());
    out
}

/// Maps `Requires=` to depends-on, `Wants=` to depends-ms and `After=` to
/// waits-for, and notes that `Before=` and `Conflicts=` have no
/// counterpart.
pub fn convert_dependencies(unit: &SystemdUnit, config: &Config, warnings: &mut Vec<Warning>) -> (r: (
    Vec<String>,
    Vec<String>,
    Vec<String>,
))
    ensures
        r.0.deep_view() == resolve_values(unit_values(unit@, "Requires"@), config@.dependency_map),
        r.1.deep_view() == resolve_values(unit_values(unit@, "Wants"@), config@.dependency_map),
        r.2.deep_view() == resolve_values(unit_values(unit@, "After"@), config@.dependency_map),
        warnings_view(final(warnings)@) == warnings_view(old(warnings)@) + dependency_warnings(
            unit@,
        ),
{
    let depends_on = resolve_list(&unit.get_all("Unit", "Requires"), config);
    let depends_ms = resolve_list(&unit.get_all("Unit", "Wants"), config);
    let waits_for = resolve_list(&unit.get_all("Unit", "After"), config);
    let ghost w0 = warnings_view(warnings@);
    if unit.get_all("Unit", "Before").len() > 0 {
        push_warning(
            warnings,
            String::from_str("Before"),
            String::from_str("Before= skipped (no direct dinit equivalent)"),
            Severity::Info,
        );
    }
    let ghost w1 = warnings_view(warnings@);
    if unit.get_all("Unit", "Conflicts").len() > 0 {
        push_warning(
            warnings,
            String::from_str("Conflicts"),
            String::from_str("Conflicts= has no direct dinit equivalent — skipped"),
            Severity::Warn,
        );
    }
    assert(warnings_view(warnings@) =~= w0 + dependency_warnings(unit@));
    (depends_on, depends_ms, waits_for)
}


// ---------------------------------------------------------------------
// ExecStartPre=, ExecStartPost=, ExecStopPost=
// ---------------------------------------------------------------------

pub open spec fn script_header() -> Seq<char> {
    "#!/bin/sh\nset -e\n"@
}

/// One wrapper-script line: the command, with `|| true` when its failure is
/// ignored.
pub open spec fn script_line(cmd: Seq<char>) -> Seq<char> {
    let (dash, c) = dash_split(cmd);
    if dash {
        c + " || true\n"@
    } else {
        c + "\n"@
    }
}

pub open spec fn script_lines(cmds: Seq<Seq<char>>) -> Seq<char>
    decreases cmds.len(),
{
    if cmds.len() == 0 {
        seq![]
    } else {
        script_lines(cmds.drop_last()) + script_line(cmds.last())
    }
}

/// A single command without `-` runs directly; anything else goes through a
/// wrapper script.
pub open spec fn runs_directly(cmds: Seq<Seq<char>>) -> bool {
    cmds.len() == 1 && !dash_split(cmds[0]).0
}

pub open spec fn step_command(cmds: Seq<Seq<char>>, dir: Seq<char>, name: Seq<char>, suffix: Seq<char>) -> Seq<char> {
    if runs_directly(cmds) {
        dash_split(cmds[0]).1
    } else {
        script_command(dir, name, suffix)
    }
}

pub open spec fn step_script(cmds: Seq<Seq<char>>) -> Option<Seq<char>> {
    if runs_directly(cmds) {
        None
    } else {
        Some(script_header() + script_lines(cmds))
    }
}

/// A scripted helper service that runs `command` with the unit's user,
/// group and working directory.
pub open spec fn helper_service(
    u: UnitView,
    name: Seq<char>,
    source: Seq<char>,
    command: Seq<char>,
    waits_for: Seq<Seq<char>>,
) -> ServiceView {
    ServiceView {
        name,
        source_path: source,
        service_type: DinitType::Scripted,
        command: Some(command),
        stop_command: None,
        user: service_value(u, "User"@),
        group: service_value(u, "Group"@),
        working_dir: service_value(u, "WorkingDirectory"@),
        env_files: seq![],
        pid_file: None,
        restart: RestartPolicy::Never,
        smooth_recovery: false,
        restart_delay: None,
        depends_on: seq![],
        depends_ms: seq![],
        waits_for,
        logfile: None,
    }
}

/// The `<name>-pre` service for `ExecStartPre=`, if any.
pub open spec fn pre_service_of(u: UnitView, dir: Seq<char>, name: Seq<char>, source: Seq<char>) -> Option<ServiceView> {
    let cmds = service_values(u, "ExecStartPre"@);
    if cmds.len() == 0 {
        None
    } else {
        Some(
            helper_service(
                u,
                name + "-pre"@,
                source,
                step_command(cmds, dir, name, "pre"@),
                seq![],
            ),
        )
    }
}

pub open spec fn pre_script_of(u: UnitView) -> Option<Seq<char>> {
    let cmds = service_values(u, "ExecStartPre"@);
    if cmds.len() == 0 {
        None
    } else {
        step_script(cmds)
    }
}

/// The `<name>-post` service for `ExecStartPost=`, if any; it waits for the
/// main service.
pub open spec fn post_service_of(u: UnitView, dir: Seq<char>, name: Seq<char>, source: Seq<char>) -> Option<ServiceView> {
    let cmds = service_values(u, "ExecStartPost"@);
    if cmds.len() == 0 {
        None
    } else {
        Some(
            helper_service(
                u,
                name + "-post"@,
                source,
                step_command(cmds, dir, name, "post"@),
                seq![name],
            ),
        )
    }
}

pub open spec fn post_script_of(u: UnitView) -> Option<Seq<char>> {
    let cmds = service_values(u, "ExecStartPost"@);
    if cmds.len() == 0 {
        None
    } else {
        step_script(cmds)
    }
}

fn script_text(cmds: &Vec<&str>) -> (r: Vec<char>)
    ensures
        r@ == script_header() + script_lines(cmds.deep_view()),
{
    let mut t: Vec<char> = Vec::new();
    push_str(&mut t, "#!/bin/sh\nset -e\n");
    let mut i: usize = 0;
    assert(cmds.deep_view().take(0) =~= Seq::<Seq<char>>::empty());
    assert(t@ =~= script_header() + script_lines(cmds.deep_view().take(0)));
    while i < cmds.len()
        invariant
            i <= cmds.len(),
            t@ == script_header() + script_lines(cmds.deep_view().take(i as int)),
        decreases cmds.len() - i,
    {
        let (dash, c) = parse_dash_prefix(cmds[i]);
        let ghost t0 = t@;
        push_str(&mut t, c.as_str());
        if dash {
            push_str(&mut t, " || true\n");
        } else {
            push_str(&mut t, "\n");
        }
        assert(cmds.deep_view().take(i + 1).drop_last() =~= cmds.deep_view().take(i as int));
        assert(t@ =~= t0 + script_line(cmds.deep_view()[i as int]));
        i = i + 1;
    }
    assert(cmds.deep_view().take(cmds.len() as int) =~= cmds.deep_view());
    t
}

fn helper_service_exec(
    unit: &SystemdUnit,
    name: String,
    source_path: &String,
    command: String,
    waits_for: Vec<String>,
) -> (r: DinitService)
    ensures
        r@ == helper_service(unit@, name@, source_path@, command@, waits_for.deep_view()),
{
    let env_files: Vec<String> = Vec::new();
    let depends_on: Vec<String> = Vec::new();
    let depends_ms: Vec<String> = Vec::new();
    assert(env_files.deep_view() =~= Seq::<Seq<char>>::empty());
    assert(depends_on.deep_view() =~= Seq::<Seq<char>>::empty());
    assert(depends_ms.deep_view() =~= Seq::<Seq<char>>::empty());
    DinitService {
        name,
        source_path: source_path.clone(),
        service_type: DinitType::Scripted,
        command: Some(command),
        stop_command: None,
        user: owned(unit.get("Service", "User")),
        group: owned(unit.get("Service", "Group")),
        working_dir: owned(unit.get("Service", "WorkingDirectory")),
        env_files,
        pid_file: None,
        restart: RestartPolicy::Never,
        smooth_recovery: false,
        restart_delay: None,
        depends_on,
        depends_ms,
        waits_for,
        logfile: None,
    }
}

/// The helper service and wrapper script for the commands of `key`.
fn convert_exec_step(
    unit: &SystemdUnit,
    service_name: &str,
    source_path: &String,
    dir: &str,
    key: &str,
    suffix: &str,
    waits_for_main: bool,
) -> (r: (Option<DinitService>, Option<String>))
    ensures
        ({
            let cmds = service_values(unit@, key@);
            &&& cmds.len() == 0 ==> r.0 is None && r.1 is None
            &&& cmds.len() > 0 ==> {
                &&& opt_service_view(r.0) == Some(
                    helper_service(
                        unit@,
                        service_name@ + "-"@ + suffix@,
                        source_path@,
                        step_command(cmds, dir@, service_name@, suffix@),
                        if waits_for_main {
                            seq![service_name@]
                        } else {
                            seq![]
                        },
                    ),
                )
                &&& r.1.deep_view() == step_script(cmds)
            }
        }),
{
    let cmds = unit.get_all("Service", key);
    if cmds.len() == 0 {
        return (None, None);
    }
    let ghost cv = cmds.deep_view();
    let command: String;
    let script: Option<String>;
    if cmds.len() == 1 {
        let (dash, clean) = parse_dash_prefix(cmds[0]);
        if dash {
            command = script_command_in(dir, service_name, suffix);
            let t = script_text(&cmds);
            script = Some(string_of(&t));
        } else {
            command = clean;
            script = None;
        }
    } else {
        command = script_command_in(dir, service_name, suffix);
        let t = script_text(&cmds);
        script = Some(string_of(&t));
    }
    let mut nm = chars_of(service_name);
    push_str(&mut nm, "-");
    push_str(&mut nm, suffix);
    let mut waits_for: Vec<String> = Vec::new();
    if waits_for_main {
        waits_for.push(String::from_str(service_name));
        assert(waits_for.deep_view() =~= seq![service_name@]);
    } else {
        assert(waits_for.deep_view() =~= Seq::<Seq<char>>::empty());
    }
    let svc = helper_service_exec(unit, string_of(&nm), source_path, command, waits_for);
    (Some(svc), script)
}

/// `ExecStartPre=` as a `<name>-pre` scripted service (and a wrapper
/// script when there are several commands or a `-` prefix).
pub fn convert_exec_pre(
    unit: &SystemdUnit,
    service_name: &str,
    source_path: &String,
    config: &Config,
    warnings: &mut Vec<Warning>,
) -> (r: (Option<DinitService>, Option<String>))
    ensures
        opt_service_view(r.0) == pre_service_of(unit@, config@.output_dir, service_name@, source_path@),
        r.1.deep_view() == pre_script_of(unit@),
        final(warnings)@ == old(warnings)@,
{
    exec_pre_in(unit, service_name, source_path, config.output_dir.as_str())
}

/// The `<name>-pre` service with its wrapper script placed in `dir`.
fn exec_pre_in(unit: &SystemdUnit, service_name: &str, source_path: &String, dir: &str) -> (r: (
    Option<DinitService>,
    Option<String>,
))
    ensures
        opt_service_view(r.0) == pre_service_of(unit@, dir@, service_name@, source_path@),
        r.1.deep_view() == pre_script_of(unit@),
{
    let r = convert_exec_step(unit, service_name, source_path, dir, "ExecStartPre", "pre", false);
    proof {
        reveal_strlit("-");
        reveal_strlit("pre");
        reveal_strlit("-pre");
        assert("-"@ + "pre"@ =~= "-pre"@);
        assert(service_name@ + "-"@ + "pre"@ =~= service_name@ + "-pre"@);
    }
    r
}

/// `ExecStartPost=` as a `<name>-post` scripted service that waits for the
/// main service.
pub fn convert_exec_post(
    unit: &SystemdUnit,
    service_name: &str,
    source_path: &String,
    config: &Config,
    warnings: &mut Vec<Warning>,
) -> (r: (Option<DinitService>, Option<String>))
    ensures
        opt_service_view(r.0) == post_service_of(unit@, config@.output_dir, service_name@, source_path@),
        r.1.deep_view() == post_script_of(unit@),
        final(warnings)@ == old(warnings)@,
{
    exec_post_in(unit, service_name, source_path, config.output_dir.as_str())
}

/// The `<name>-post` service with its wrapper script placed in `dir`.
fn exec_post_in(unit: &SystemdUnit, service_name: &str, source_path: &String, dir: &str) -> (r: (
    Option<DinitService>,
    Option<String>,
))
    ensures
        opt_service_view(r.0) == post_service_of(unit@, dir@, service_name@, source_path@),
        r.1.deep_view() == post_script_of(unit@),
{
    let r = convert_exec_step(unit, service_name, source_path, dir, "ExecStartPost", "post", true);
    proof {
        reveal_strlit("-");
        reveal_strlit("post");
        reveal_strlit("-post");
        assert("-"@ + "post"@ =~= "-post"@);
        assert(service_name@ + "-"@ + "post"@ =~= service_name@ + "-post"@);
    }
    r
}

/// The stop command and stop script once `ExecStopPost=` is folded in:
/// with an `ExecStop=` both run from a wrapper script; without one the
/// post-stop commands are dropped.
pub open spec fn stop_post_outcome(
    stop: Option<Seq<char>>,
    cmds: Seq<Seq<char>>,
    dir: Seq<char>,
    name: Seq<char>,
) -> (Option<Seq<char>>, Option<Seq<char>>) {
    if cmds.len() == 0 {
        (stop, None)
    } else {
        match stop {
            Some(s) => (
                Some(script_command(dir, name, "stop"@)),
                Some(script_header() + s + "\n"@ + script_lines(cmds)),
            ),
            None => (None, None),
        }
    }
}

pub open spec fn stop_post_warnings(stop: Option<Seq<char>>, cmds: Seq<Seq<char>>) -> Seq<WarningView> {
    if cmds.len() > 0 && stop is None {
        seq![
            warning(
                "ExecStopPost"@,
                "ExecStopPost= without ExecStop= skipped — dinit handles stop signals natively"@,
                Severity::Warn,
            ),
        ]
    } else {
        seq![]
    }
}

/// Folds `ExecStopPost=` into a stop wrapper script.
pub fn convert_stop_post(
    unit: &SystemdUnit,
    stop_command: Option<String>,
    service_name: &str,
    config: &Config,
    warnings: &mut Vec<Warning>,
) -> (r: (Option<String>, Option<String>))
    ensures
        (r.0.deep_view(), r.1.deep_view()) == stop_post_outcome(
            stop_command.deep_view(),
            service_values(unit@, "ExecStopPost"@),
            config@.output_dir,
            service_name@,
        ),
        warnings_view(final(warnings)@) == warnings_view(old(warnings)@) + stop_post_warnings(
            stop_command.deep_view(),
            service_values(unit@, "ExecStopPost"@),
        ),
{
    stop_post_in(unit, stop_command, service_name, config.output_dir.as_str(), warnings)
}

/// [`convert_stop_post`] with the stop script placed in `dir`.
fn stop_post_in(
    unit: &SystemdUnit,
    stop_command: Option<String>,
    service_name: &str,
    dir: &str,
    warnings: &mut Vec<Warning>,
) -> (r: (Option<String>, Option<String>))
    ensures
        (r.0.deep_view(), r.1.deep_view()) == stop_post_outcome(
            stop_command.deep_view(),
            service_values(unit@, "ExecStopPost"@),
            dir@,
            service_name@,
        ),
        warnings_view(final(warnings)@) == warnings_view(old(warnings)@) + stop_post_warnings(
            stop_command.deep_view(),
            service_values(unit@, "ExecStopPost"@),
        ),
{
    let ghost w0 = warnings_view(warnings@);
    let cmds = unit.get_all("Service", "ExecStopPost");
    if cmds.len() == 0 {
        assert(w0 + seq![] =~= w0);
        return (stop_command, None);
    }
    match stop_command {
        Some(stop_cmd) => {
            let body = script_text(&cmds);
            let mut t: Vec<char> = Vec::new();
            push_str(&mut t, "#!/bin/sh\nset -e\n");
            push_str(&mut t, stop_cmd.as_str());
            push_str(&mut t, "\n");
            let hdr = chars_of("#!/bin/sh\nset -e\n");
            let rest = slice_of(&body, hdr.len(), body.len());
            proof {
                assert(body@.take(hdr@.len() as int) =~= hdr@);
                assert(rest@ =~= script_lines(cmds.deep_view()));
            }
            push_all(&mut t, &rest);
            assert(w0 + seq![] =~= w0);
            (Some(script_command_in(dir, service_name, "stop")), Some(string_of(&t)))
        },
        None => {
            push_warning(
                warnings,
                String::from_str("ExecStopPost"),
                String::from_str(
                    "ExecStopPost= without ExecStop= skipped — dinit handles stop signals natively",
                ),
                Severity::Warn,
            );
            (None, None)
        },
    }
}


// ---------------------------------------------------------------------
// The whole conversion
// ---------------------------------------------------------------------

pub open spec fn parse_warning_views(ws: Seq<Seq<char>>) -> Seq<WarningView> {
    ws.map_values(|m: Seq<char>| warning("parse"@, m, Severity::Warn))
}

/// `Type=`, `simple` when absent.
pub open spec fn raw_type(u: UnitView) -> Seq<char> {
    match service_value(u, "Type"@) {
        Some(t) => t,
        None => "simple"@,
    }
}

pub open spec fn has_pid_file(u: UnitView) -> bool {
    service_value(u, "PIDFile"@) is Some
}

/// Whether the unit is installed into a target (`WantedBy=` or
/// `RequiredBy=` in `[Install]`).
pub open spec fn installs(u: UnitView) -> bool {
    lookup(u.sections, "Install"@, "WantedBy"@) is Some || lookup(
        u.sections,
        "Install"@,
        "RequiredBy"@,
    ) is Some
}

/// The main service of a unit whose `ExecStart=` is `exec_start`.
pub open spec fn main_service_of(
    u: UnitView,
    c: ConfigView,
    dir: Seq<char>,
    name: Seq<char>,
    exec_start: Seq<char>,
) -> ServiceView {
    let stop = stop_post_outcome(
        service_value(u, "ExecStop"@),
        service_values(u, "ExecStopPost"@),
        dir,
        name,
    );
    let restart = restart_mapping(service_value(u, "Restart"@));
    ServiceView {
        name,
        source_path: u.source_path,
        service_type: type_mapping(raw_type(u), has_pid_file(u)),
        command: Some(env_refs(specifiers_replaced(exec_start, name))),
        stop_command: stop.0,
        user: service_value(u, "User"@),
        group: service_value(u, "Group"@),
        working_dir: service_value(u, "WorkingDirectory"@),
        env_files: environment_files(u, dir, name),
        pid_file: service_value(u, "PIDFile"@),
        restart: restart.0,
        smooth_recovery: restart.1,
        restart_delay: restart_delay_text(service_value(u, "RestartSec"@)),
        depends_on: resolve_values(unit_values(u, "Requires"@), c.dependency_map) + (if service_values(
            u,
            "ExecStartPre"@,
        ).len() > 0 {
            seq![name + "-pre"@]
        } else {
            seq![]
        }),
        depends_ms: resolve_values(unit_values(u, "Wants"@), c.dependency_map),
        waits_for: resolve_values(unit_values(u, "After"@), c.dependency_map),
        logfile: None,
    }
}

/// All warnings of a conversion, in the order they arise: `Type=`,
/// specifiers, `Restart=`, dependencies, `ExecStopPost=`, out-of-scope
/// directives, then the parser's own.
pub open spec fn conversion_warnings(u: UnitView, name: Seq<char>, exec_start: Seq<char>) -> Seq<
    WarningView,
> {
    type_warnings(raw_type(u), has_pid_file(u)) + specifier_warnings(exec_start, name)
        + restart_warnings(service_value(u, "Restart"@)) + dependency_warnings(u) + stop_post_warnings(
        service_value(u, "ExecStop"@),
        service_values(u, "ExecStopPost"@),
    ) + out_of_scope_warnings(u.sections) + parse_warning_views(u.parse_warnings)
}

/// What converting the unit `u` with the settings `c` yields.
pub open spec fn converted(u: UnitView, c: ConfigView) -> Result<ResultView, ConvertErrorView> {
    let name = service_name(u.source_path);
    let dir = output_dir_for(c, u.source_path);
    match service_value(u, "ExecStart"@) {
        None => Err(ConvertErrorView::NoExecStart { unit: name }),
        Some(exec_start) => Ok(
            ResultView {
                main_service: main_service_of(u, c, dir, name, exec_start),
                pre_service: pre_service_of(u, dir, name, u.source_path),
                post_service: post_service_of(u, dir, name, u.source_path),
                pre_script: pre_script_of(u),
                post_script: post_script_of(u),
                stop_script: stop_post_outcome(
                    service_value(u, "ExecStop"@),
                    service_values(u, "ExecStopPost"@),
                    dir,
                    name,
                ).1,
                env_file_content: environment_content(u),
                env_wrapper_script: None,
                warnings: conversion_warnings(u, name, exec_start),
                should_enable: installs(u),
            },
        ),
    }
}

/// Converts a systemd service unit into dinit services, scripts and
/// env-file content. Fails exactly when `[Service]` has no `ExecStart=`.
pub fn convert(unit: &SystemdUnit, config: &Config) -> (r: Result<ConversionResult, ConvertError>)
    ensures
        match r {
            Ok(res) => converted(unit@, config@) == Ok::<ResultView, ConvertErrorView>(res@),
            Err(e) => converted(unit@, config@) == Err::<ResultView, ConvertErrorView>(e@),
        },
{
    let mut warnings: Vec<Warning> = Vec::new();
    let name = service_name_of(unit.source_path.as_str());
    let exec_start = match unit.get("Service", "ExecStart") {
        Some(e) => e,
        None => {
            return Err(ConvertError::NoExecStart { unit: name });
        },
    };
    let raw = match unit.get("Service", "Type") {
        Some(t) => t,
        None => "simple",
    };
    let has_pid = unit.get("Service", "PIDFile").is_some();
    let service_type = convert_type(raw, has_pid, &mut warnings);
    let replaced = replace_specifiers(exec_start, name.as_str(), &mut warnings);
    let command = convert_env_refs(replaced);
    let stop_command = owned(unit.get("Service", "ExecStop"));
    let user = owned(unit.get("Service", "User"));
    let group = owned(unit.get("Service", "Group"));
    let working_dir = owned(unit.get("Service", "WorkingDirectory"));
    let pid_file = owned(unit.get("Service", "PIDFile"));
    let (restart, smooth_recovery) = convert_restart(unit.get("Service", "Restart"), &mut warnings);
    let delay = restart_delay(unit.get("Service", "RestartSec"));
    let dir = config.output_dir_for(unit.source_path.as_str());
    let (env_files, env_file_content) = environment_in(unit, dir, name.as_str());
    let (depends_on, depends_ms, waits_for) = convert_dependencies(unit, config, &mut warnings);
    let source_path = unit.source_path.clone();
    let (pre_service, pre_script) = exec_pre_in(unit, name.as_str(), &source_path, dir);
    let (post_service, post_script) = exec_post_in(unit, name.as_str(), &source_path, dir);
    let (final_stop_command, stop_script) = stop_post_in(
        unit,
        stop_command,
        name.as_str(),
        dir,
        &mut warnings,
    );
    let should_enable = unit.get("Install", "WantedBy").is_some() || unit.get(
        "Install",
        "RequiredBy",
    ).is_some();
    warn_out_of_scope(unit, &mut warnings);
    let ghost w_before_parse = warnings_view(warnings@);
    let mut i: usize = 0;
    assert(unit.parse_warnings.deep_view().take(0) =~= Seq::<Seq<char>>::empty());
    assert(w_before_parse + parse_warning_views(Seq::<Seq<char>>::empty()) =~= w_before_parse);
    while i < unit.parse_warnings.len()
        invariant
            i <= unit.parse_warnings.len(),
            warnings_view(warnings@) == w_before_parse + parse_warning_views(
                unit.parse_warnings.deep_view().take(i as int),
            ),
        decreases unit.parse_warnings.len() - i,
    {
        let ghost before = warnings_view(warnings@);
        push_warning(
            &mut warnings,
            String::from_str("parse"),
            unit.parse_warnings[i].clone(),
            Severity::Warn,
        );
        assert(parse_warning_views(unit.parse_warnings.deep_view().take(i + 1)) =~= parse_warning_views(
            unit.parse_warnings.deep_view().take(i as int),
        ).push(warning("parse"@, unit.parse_warnings@[i as int]@, Severity::Warn)));
        i = i + 1;
    }
    assert(unit.parse_warnings.deep_view().take(unit.parse_warnings.len() as int)
        =~= unit.parse_warnings.deep_view());
    let mut main_depends_on = depends_on;
    if pre_service.is_some() {
        let mut pn = chars_of(name.as_str());
        push_str(&mut pn, "-pre");
        let ghost d0 = main_depends_on.deep_view();
        main_depends_on.push(string_of(&pn));
        assert(main_depends_on.deep_view() =~= d0 + seq![name@ + "-pre"@]);
    } else {
        assert(main_depends_on.deep_view() + Seq::<Seq<char>>::empty() =~= main_depends_on.deep_view());
    }
    let main_service = DinitService {
        name: name.clone(),
        source_path: unit.source_path.clone(),
        service_type,
        command: Some(command),
        stop_command: final_stop_command,
        user,
        group,
        working_dir,
        env_files,
        pid_file,
        restart,
        smooth_recovery,
        restart_delay: delay,
        depends_on: main_depends_on,
        depends_ms,
        waits_for,
        logfile: None,
    };
    let res = ConversionResult {
        main_service,
        pre_service,
        post_service,
        pre_script,
        post_script,
        stop_script,
        env_file_content,
        env_wrapper_script: None,
        warnings,
        should_enable,
    };
    assert(res@.warnings =~= conversion_warnings(unit@, name@, exec_start@));
    Ok(res)
}

} // verus!
