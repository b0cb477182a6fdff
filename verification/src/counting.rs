//! Counting laws: how many warnings and lines the reader, the joiner of
//! continuation lines and the converter produce.

use vstd::prelude::*;

use crate::converter::{
    converted, has_pid_file, parse_warning_views, raw_type, restart_warnings, specifier_warnings,
    dependency_warnings, stop_post_warnings, type_mapping, type_warnings,
};
use crate::config::ConfigView;
use crate::model::WarningView;
use crate::parser::{
    initial_state, is_comment_or_blank, is_header, join_fold, joined, lines_applied, parse_state,
    UnitView,
};
use crate::converter::{words, words_acc};
use crate::laws::lemma_lines_append;
use crate::text::{
    contains_char, ends_with_char, find_char, is_ws, lemma_find_char, lemma_find_char_at,
    lemma_trim_twice, lines, strip_cr, trim, trim_end, trim_start,
};
use crate::scope::{
    is_cgroup, is_conditional, is_sandboxing, is_socket_directive, out_of_scope_warnings,
    scope_warning, scope_warnings, section_scope_warnings, ScopeKind,
};

verus! {

/// How many of the warnings are about the directive `d`.
pub open spec fn directive_count(ws: Seq<WarningView>, d: Seq<char>) -> nat
    decreases ws.len(),
{
    if ws.len() == 0 {
        0
    } else {
        directive_count(ws.drop_last(), d) + if ws.last().directive == d {
            1nat
        } else {
            0nat
        }
    }
}

proof fn lemma_count_append(a: Seq<WarningView>, b: Seq<WarningView>, d: Seq<char>)
    ensures
        directive_count(a + b, d) == directive_count(a, d) + directive_count(b, d),
    decreases b.len(),
{
    if b.len() == 0 {
        assert(a + b =~= a);
    } else {
        assert((a + b).drop_last() =~= a + b.drop_last());
        assert((a + b).last() == b.last());
        lemma_count_append(a, b.drop_last(), d);
    }
}

proof fn lemma_count_none(ws: Seq<WarningView>, d: Seq<char>)
    requires
        forall|i: int| 0 <= i < ws.len() ==> (#[trigger] ws[i]).directive != d,
    ensures
        directive_count(ws, d) == 0,
    decreases ws.len(),
{
    if ws.len() > 0 {
        let front = ws.drop_last();
        assert forall|i: int| 0 <= i < front.len() implies (#[trigger] front[i]).directive != d by {
            assert(front[i] == ws[i]);
        }
        lemma_count_none(front, d);
        assert(ws[ws.len() - 1].directive != d);
    }
}

proof fn lemma_type_not_out_of_scope()
    ensures
        !is_sandboxing("Type"@),
        !is_cgroup("Type"@),
        !is_conditional("Type"@),
        !is_socket_directive("Type"@),
{
    reveal_strlit("Type");
    reveal_strlit("ProtectSystem");
    reveal_strlit("ProtectHome");
    reveal_strlit("PrivateTmp");
    reveal_strlit("PrivateDevices");
    reveal_strlit("PrivateNetwork");
    reveal_strlit("ProtectKernelTunables");
    reveal_strlit("ProtectKernelModules");
    reveal_strlit("ProtectControlGroups");
    reveal_strlit("NoNewPrivileges");
    reveal_strlit("ReadOnlyPaths");
    reveal_strlit("ReadWritePaths");
    reveal_strlit("InaccessiblePaths");
    reveal_strlit("ProtectHostname");
    reveal_strlit("LockPersonality");
    reveal_strlit("MemoryDenyWriteExecute");
    reveal_strlit("RestrictRealtime");
    reveal_strlit("RestrictSUIDSGID");
    reveal_strlit("RestrictNamespaces");
    reveal_strlit("SystemCallFilter");
    reveal_strlit("SystemCallArchitectures");
    reveal_strlit("CapabilityBoundingSet");
    reveal_strlit("AmbientCapabilities");
    reveal_strlit("SecureBits");
    reveal_strlit("ProtectClock");
    reveal_strlit("ProtectKernelLogs");
    reveal_strlit("IPAddressDeny");
    reveal_strlit("RestrictAddressFamilies");
    reveal_strlit("PrivateUsers");
    reveal_strlit("DynamicUser");
    reveal_strlit("SupplementaryGroups");
    reveal_strlit("Slice");
    reveal_strlit("CPUQuota");
    reveal_strlit("MemoryMax");
    reveal_strlit("MemoryHigh");
    reveal_strlit("MemoryLow");
    reveal_strlit("IOWeight");
    reveal_strlit("IODeviceWeight");
    reveal_strlit("TasksMax");
    reveal_strlit("Delegate");
    reveal_strlit("ConditionPathExists");
    reveal_strlit("ConditionPathIsDirectory");
    reveal_strlit("ConditionFileNotEmpty");
    reveal_strlit("ConditionDirectoryNotEmpty");
    reveal_strlit("ConditionKernelCommandLine");
    reveal_strlit("ConditionVirtualization");
    reveal_strlit("ConditionArchitecture");
    reveal_strlit("ConditionSecurity");
    reveal_strlit("AssertPathExists");
    reveal_strlit("ListenStream");
    reveal_strlit("ListenDatagram");
    reveal_strlit("ListenSequentialPacket");
    reveal_strlit("Accept");
    assert("ProtectSystem"@.len() != "Type"@.len());
    assert("ProtectHome"@.len() != "Type"@.len());
    assert("PrivateTmp"@.len() != "Type"@.len());
    assert("PrivateDevices"@.len() != "Type"@.len());
    assert("PrivateNetwork"@.len() != "Type"@.len());
    assert("ProtectKernelTunables"@.len() != "Type"@.len());
    assert("ProtectKernelModules"@.len() != "Type"@.len());
    assert("ProtectControlGroups"@.len() != "Type"@.len());
    assert("NoNewPrivileges"@.len() != "Type"@.len());
    assert("ReadOnlyPaths"@.len() != "Type"@.len());
    assert("ReadWritePaths"@.len() != "Type"@.len());
    assert("InaccessiblePaths"@.len() != "Type"@.len());
    assert("ProtectHostname"@.len() != "Type"@.len());
    assert("LockPersonality"@.len() != "Type"@.len());
    assert("MemoryDenyWriteExecute"@.len() != "Type"@.len());
    assert("RestrictRealtime"@.len() != "Type"@.len());
    assert("RestrictSUIDSGID"@.len() != "Type"@.len());
    assert("RestrictNamespaces"@.len() != "Type"@.len());
    assert("SystemCallFilter"@.len() != "Type"@.len());
    assert("SystemCallArchitectures"@.len() != "Type"@.len());
    assert("CapabilityBoundingSet"@.len() != "Type"@.len());
    assert("AmbientCapabilities"@.len() != "Type"@.len());
    assert("SecureBits"@.len() != "Type"@.len());
    assert("ProtectClock"@.len() != "Type"@.len());
    assert("ProtectKernelLogs"@.len() != "Type"@.len());
    assert("IPAddressDeny"@.len() != "Type"@.len());
    assert("RestrictAddressFamilies"@.len() != "Type"@.len());
    assert("PrivateUsers"@.len() != "Type"@.len());
    assert("DynamicUser"@.len() != "Type"@.len());
    assert("SupplementaryGroups"@.len() != "Type"@.len());
    assert("Slice"@.len() != "Type"@.len());
    assert("CPUQuota"@.len() != "Type"@.len());
    assert("MemoryMax"@.len() != "Type"@.len());
    assert("MemoryHigh"@.len() != "Type"@.len());
    assert("MemoryLow"@.len() != "Type"@.len());
    assert("IOWeight"@.len() != "Type"@.len());
    assert("IODeviceWeight"@.len() != "Type"@.len());
    assert("TasksMax"@.len() != "Type"@.len());
    assert("Delegate"@.len() != "Type"@.len());
    assert("ConditionPathExists"@.len() != "Type"@.len());
    assert("ConditionPathIsDirectory"@.len() != "Type"@.len());
    assert("ConditionFileNotEmpty"@.len() != "Type"@.len());
    assert("ConditionDirectoryNotEmpty"@.len() != "Type"@.len());
    assert("ConditionKernelCommandLine"@.len() != "Type"@.len());
    assert("ConditionVirtualization"@.len() != "Type"@.len());
    assert("ConditionArchitecture"@.len() != "Type"@.len());
    assert("ConditionSecurity"@.len() != "Type"@.len());
    assert("AssertPathExists"@.len() != "Type"@.len());
    assert("ListenStream"@.len() != "Type"@.len());
    assert("ListenDatagram"@.len() != "Type"@.len());
    assert("ListenSequentialPacket"@.len() != "Type"@.len());
    assert("Accept"@.len() != "Type"@.len());
}

proof fn lemma_scope_no_type(keys: Seq<Seq<char>>, kind: ScopeKind)
    ensures
        directive_count(scope_warnings(keys, kind), "Type"@) == 0,
    decreases keys.len(),
{
    if keys.len() > 0 {
        lemma_scope_no_type(keys.drop_last(), kind);
        lemma_count_append(scope_warnings(keys.drop_last(), kind), scope_warning(kind, keys.last()), "Type"@);
        lemma_type_not_out_of_scope();
        let w = scope_warning(kind, keys.last());
        assert forall|i: int| 0 <= i < w.len() implies (#[trigger] w[i]).directive != "Type"@ by {
            assert(w[i].directive == keys.last());
        }
        lemma_count_none(w, "Type"@);
    }
}

/// `Type=` maps to a dinit type, and exactly one warning about `Type`
/// arises for every value other than `simple` (the default), `oneshot` and
/// `forking` with a `PIDFile=`; no other warning of a conversion is about
/// `Type`.
pub proof fn law_type_warning_count(u: UnitView, c: ConfigView)
    ensures
        converted(u, c) matches Ok(r) ==> {
            &&& r.main_service.service_type == type_mapping(raw_type(u), has_pid_file(u))
            &&& directive_count(r.warnings, "Type"@) == if raw_type(u) == "simple"@ || raw_type(u)
                == "oneshot"@ || (raw_type(u) == "forking"@ && has_pid_file(u)) {
                0nat
            } else {
                1nat
            }
        },
{
    if let Ok(r) = converted(u, c) {
        reveal_strlit("Type");
        reveal_strlit("simple");
        reveal_strlit("oneshot");
        reveal_strlit("forking");
        reveal_strlit("ExecStart");
        reveal_strlit("Restart");
        reveal_strlit("Before");
        reveal_strlit("Conflicts");
        reveal_strlit("ExecStopPost");
        reveal_strlit("parse");
        assert("simple"@.len() != "oneshot"@.len());
        assert("simple"@.len() != "forking"@.len());
        assert("oneshot"@[0] != "forking"@[0]);
        assert("ExecStart"@.len() != "Type"@.len());
        assert("Restart"@.len() != "Type"@.len());
        assert("Before"@.len() != "Type"@.len());
        assert("Conflicts"@.len() != "Type"@.len());
        assert("ExecStopPost"@.len() != "Type"@.len());
        assert("parse"@.len() != "Type"@.len());
        let name = crate::converter::service_name(u.source_path);
        let exec_start = crate::converter::service_value(u, "ExecStart"@)->Some_0;
        let t = type_warnings(raw_type(u), has_pid_file(u));
        let s = specifier_warnings(exec_start, name);
        let rw = restart_warnings(crate::converter::service_value(u, "Restart"@));
        let dw = dependency_warnings(u);
        let sw = stop_post_warnings(
            crate::converter::service_value(u, "ExecStop"@),
            crate::converter::service_values(u, "ExecStopPost"@),
        );
        let o = out_of_scope_warnings(u.sections);
        let pw = parse_warning_views(u.parse_warnings);
        assert(r.warnings == t + s + rw + dw + sw + o + pw);
        lemma_count_append(t, s, "Type"@);
        lemma_count_append(t + s, rw, "Type"@);
        lemma_count_append(t + s + rw, dw, "Type"@);
        lemma_count_append(t + s + rw + dw, sw, "Type"@);
        lemma_count_append(t + s + rw + dw + sw, o, "Type"@);
        lemma_count_append(t + s + rw + dw + sw + o, pw, "Type"@);
        assert forall|i: int| 0 <= i < s.len() implies (#[trigger] s[i]).directive != "Type"@ by {}
        lemma_count_none(s, "Type"@);
        assert forall|i: int| 0 <= i < rw.len() implies (#[trigger] rw[i]).directive != "Type"@ by {}
        lemma_count_none(rw, "Type"@);
        assert forall|i: int| 0 <= i < dw.len() implies (#[trigger] dw[i]).directive != "Type"@ by {}
        lemma_count_none(dw, "Type"@);
        assert forall|i: int| 0 <= i < sw.len() implies (#[trigger] sw[i]).directive != "Type"@ by {}
        lemma_count_none(sw, "Type"@);
        assert forall|i: int| 0 <= i < pw.len() implies (#[trigger] pw[i]).directive != "Type"@ by {}
        lemma_count_none(pw, "Type"@);
        let m = u.sections;
        let a = section_scope_warnings(m, "Service"@, ScopeKind::Service);
        let b = section_scope_warnings(m, "Unit"@, ScopeKind::Unit);
        let cc = section_scope_warnings(m, "Socket"@, ScopeKind::Socket);
        lemma_scope_no_type(crate::scope::distinct_keys(crate::parser::entries_of(m, "Service"@)), ScopeKind::Service);
        lemma_scope_no_type(crate::scope::distinct_keys(crate::parser::entries_of(m, "Unit"@)), ScopeKind::Unit);
        lemma_scope_no_type(crate::scope::distinct_keys(crate::parser::entries_of(m, "Socket"@)), ScopeKind::Socket);
        lemma_count_append(a, b, "Type"@);
        lemma_count_append(a + b, cc, "Type"@);
        assert(t.len() <= 1);
        assert(t.len() == 1 ==> t[0].directive == "Type"@);
        if t.len() == 1 {
            assert(t.drop_last() =~= Seq::<WarningView>::empty());
            assert(directive_count(t.drop_last(), "Type"@) == 0);
            assert(directive_count(t, "Type"@) == 1);
        } else {
            assert(t.len() == 0);
            assert(directive_count(t, "Type"@) == 0);
        }
        assert(directive_count(o, "Type"@) == 0);
        assert(directive_count(r.warnings, "Type"@) == t.len());
    }
}

// ---------------------------------------------------------------------
// Warnings of the reader
// ---------------------------------------------------------------------

/// Some line among `ls`, trimmed, is a `[Name]` header.
pub open spec fn any_header(ls: Seq<Seq<char>>) -> bool
    decreases ls.len(),
{
    if ls.len() == 0 {
        false
    } else {
        any_header(ls.drop_last()) || is_header(trim(ls.last()))
    }
}

/// A line the reader warns about: neither blank, comment nor header, and
/// either before every header or without `=`.
pub open spec fn line_warns(raw: Seq<char>, after_header: bool) -> bool {
    let l = trim(raw);
    !is_comment_or_blank(l) && !is_header(l) && (!after_header || find_char(l, '=') is None)
}

/// How many of the lines the reader warns about.
pub open spec fn warned_lines(ls: Seq<Seq<char>>) -> nat
    decreases ls.len(),
{
    if ls.len() == 0 {
        0
    } else {
        warned_lines(ls.drop_last()) + if line_warns(ls.last(), any_header(ls.drop_last())) {
            1nat
        } else {
            0nat
        }
    }
}

proof fn lemma_warned_lines(ls: Seq<Seq<char>>)
    ensures
        lines_applied(initial_state(), ls, true).current is Some == any_header(ls),
        lines_applied(initial_state(), ls, true).warnings.len() == warned_lines(ls),
    decreases ls.len(),
{
    if ls.len() > 0 {
        lemma_warned_lines(ls.drop_last());
    }
}

/// A unit file gives one parse warning per line (after continuation lines
/// are joined) that is neither blank, a comment nor a header and that
/// either comes before every header or holds no `=`.
pub proof fn law_parse_warning_count(input: Seq<char>)
    ensures
        parse_state(input).warnings.len() == warned_lines(lines(joined(input))),
{
    lemma_warned_lines(lines(joined(input)));
}

// ---------------------------------------------------------------------
// Lines and words after joining continuation lines
// ---------------------------------------------------------------------

proof fn lemma_lines_no_newline(s: Seq<char>)
    ensures
        forall|i: int| 0 <= i < lines(s).len() ==> !contains_char(#[trigger] lines(s)[i], '\n'),
    decreases s.len(),
{
    if s.len() > 0 {
        lemma_find_char(s, '\n');
        match find_char(s, '\n') {
            Some(i) => {
                lemma_lines_no_newline(s.skip(i + 1));
                let t = s.take(i);
                let h = strip_cr(t);
                assert forall|j: int| 0 <= j < h.len() implies h[j] != '\n' by {
                    assert(h[j] == t[j]);
                    assert(t[j] == s[j]);
                }
                let ls = lines(s);
                assert(ls == seq![h] + lines(s.skip(i + 1)));
                assert forall|k: int| 0 <= k < ls.len() implies !contains_char(#[trigger] ls[k], '\n') by {
                    if k > 0 {
                        assert(ls[k] == lines(s.skip(i + 1))[k - 1]);
                    }
                }
            },
            None => {},
        }
    }
}

proof fn lemma_lines_piece(res: Seq<char>, p: Seq<char>)
    requires
        res.len() == 0 || res.last() == '\n',
        !contains_char(p, '\n'),
    ensures
        lines(res + (p + seq!['\n'])) == lines(res).push(strip_cr(p)),
{
    let q = p + seq!['\n'];
    lemma_lines_append(res, q);
    assert forall|j: int| 0 <= j < p.len() implies q[j] != '\n' by {
        assert(q[j] == p[j]);
    }
    lemma_find_char_at(q, '\n', p.len() as int);
    assert(q.take(p.len() as int) =~= p);
    assert(q.skip(p.len() as int + 1) =~= Seq::<char>::empty());
    let e = q.skip(p.len() as int + 1);
    assert(lines(e) == Seq::<Seq<char>>::empty());
    assert(find_char(q, '\n') == Some(p.len() as int));
    assert(lines(q) == seq![strip_cr(q.take(p.len() as int))] + lines(e));
    assert(lines(q) =~= seq![strip_cr(p)]);
    assert(lines(res) + seq![strip_cr(p)] =~= lines(res).push(strip_cr(p)));
}

/// How many of the lines do not end in a backslash.
pub open spec fn plain_lines(ls: Seq<Seq<char>>) -> nat
    decreases ls.len(),
{
    if ls.len() == 0 {
        0
    } else {
        plain_lines(ls.drop_last()) + if ends_with_char(ls.last(), '\\') {
            0nat
        } else {
            1nat
        }
    }
}

/// A line without the one backslash it may end in.
pub open spec fn unslashed(l: Seq<char>) -> Seq<char> {
    if ends_with_char(l, '\\') {
        l.drop_last()
    } else {
        l
    }
}

/// The words of the lines, each without its trailing backslash, in order.
pub open spec fn line_words(ls: Seq<Seq<char>>) -> Seq<Seq<char>>
    decreases ls.len(),
{
    if ls.len() == 0 {
        seq![]
    } else {
        line_words(ls.drop_last()) + words(unslashed(ls.last()))
    }
}

proof fn lemma_words_acc_prefix(s: Seq<char>, cur: Seq<char>, acc: Seq<Seq<char>>)
    ensures
        words_acc(s, cur, acc) == acc + words_acc(s, cur, seq![]),
    decreases s.len(),
{
    if s.len() == 0 {
        if cur.len() > 0 {
            assert(acc.push(cur) =~= acc + seq![cur]);
        } else {
            assert(acc + Seq::<Seq<char>>::empty() =~= acc);
        }
    } else if is_ws(s[0]) {
        if cur.len() > 0 {
            lemma_words_acc_prefix(s.drop_first(), seq![], acc.push(cur));
            lemma_words_acc_prefix(s.drop_first(), seq![], seq![cur]);
            assert(Seq::<Seq<char>>::empty().push(cur) =~= seq![cur]);
            assert(acc.push(cur) =~= acc + seq![cur]);
            assert(acc + seq![cur] + words_acc(s.drop_first(), seq![], seq![]) =~= acc + (seq![cur]
                + words_acc(s.drop_first(), seq![], seq![])));
        } else {
            lemma_words_acc_prefix(s.drop_first(), seq![], acc);
        }
    } else {
        lemma_words_acc_prefix(s.drop_first(), cur.push(s[0]), acc);
    }
}

proof fn lemma_words_acc_split(a: Seq<char>, b: Seq<char>, cur: Seq<char>, acc: Seq<Seq<char>>)
    requires
        a.len() > 0,
        is_ws(a.last()),
    ensures
        words_acc(a + b, cur, acc) == words_acc(b, seq![], words_acc(a, cur, acc)),
    decreases a.len(),
{
    let ab = a + b;
    assert(ab[0] == a[0]);
    assert(ab.drop_first() =~= a.drop_first() + b);
    let acc2 = if cur.len() > 0 {
        acc.push(cur)
    } else {
        acc
    };
    if a.len() == 1 {
        assert(a.drop_first() =~= Seq::<char>::empty());
        assert(a.drop_first() + b =~= b);
        assert(is_ws(a[0]));
        assert(words_acc(a.drop_first(), seq![], acc2) == acc2);
        assert(words_acc(a, cur, acc) == acc2);
        assert(words_acc(ab, cur, acc) == words_acc(b, seq![], acc2));
    } else {
        assert(a.drop_first().last() == a.last());
        if is_ws(a[0]) {
            lemma_words_acc_split(a.drop_first(), b, seq![], acc2);
            assert(words_acc(ab, cur, acc) == words_acc(a.drop_first() + b, seq![], acc2));
            assert(words_acc(a, cur, acc) == words_acc(a.drop_first(), seq![], acc2));
        } else {
            lemma_words_acc_split(a.drop_first(), b, cur.push(a[0]), acc);
            assert(words_acc(ab, cur, acc) == words_acc(a.drop_first() + b, cur.push(a[0]), acc));
            assert(words_acc(a, cur, acc) == words_acc(a.drop_first(), cur.push(a[0]), acc));
        }
    }
}

/// Words of text that ends in whitespace, followed by more text, are the
/// words of each.
proof fn lemma_words_append(a: Seq<char>, b: Seq<char>)
    requires
        a.len() == 0 || is_ws(a.last()),
    ensures
        words(a + b) == words(a) + words(b),
{
    if a.len() == 0 {
        assert(a + b =~= b);
        assert(words(a) =~= Seq::<Seq<char>>::empty());
        assert(words(a) + words(b) =~= words(b));
    } else {
        lemma_words_acc_split(a, b, seq![], seq![]);
        lemma_words_acc_prefix(b, seq![], words(a));
    }
}

proof fn lemma_words_acc_ws_end(x: Seq<char>, w: char, cur: Seq<char>, acc: Seq<Seq<char>>)
    requires
        is_ws(w),
    ensures
        words_acc(x.push(w), cur, acc) == words_acc(x, cur, acc),
    decreases x.len(),
{
    let y = x.push(w);
    if x.len() == 0 {
        assert(y.drop_first() =~= Seq::<char>::empty());
        assert(y[0] == w);
        let acc2 = if cur.len() > 0 {
            acc.push(cur)
        } else {
            acc
        };
        assert(words_acc(y.drop_first(), seq![], acc2) == acc2);
        assert(words_acc(y, cur, acc) == acc2);
    } else {
        assert(y[0] == x[0]);
        assert(y.drop_first() =~= x.drop_first().push(w));
        if is_ws(x[0]) {
            let acc2 = if cur.len() > 0 {
                acc.push(cur)
            } else {
                acc
            };
            lemma_words_acc_ws_end(x.drop_first(), w, seq![], acc2);
        } else {
            lemma_words_acc_ws_end(x.drop_first(), w, cur.push(x[0]), acc);
        }
    }
}

proof fn lemma_words_trim_end(x: Seq<char>)
    ensures
        words(trim_end(x)) == words(x),
    decreases x.len(),
{
    if x.len() > 0 && is_ws(x.last()) {
        lemma_words_trim_end(x.drop_last());
        lemma_words_acc_ws_end(x.drop_last(), x.last(), seq![], seq![]);
        assert(x.drop_last().push(x.last()) =~= x);
    }
}

proof fn lemma_words_trim_start(x: Seq<char>)
    ensures
        words(trim_start(x)) == words(x),
    decreases x.len(),
{
    if x.len() > 0 && is_ws(x[0]) {
        lemma_words_trim_start(x.drop_first());
    }
}

proof fn lemma_words_trim(x: Seq<char>)
    ensures
        words(trim(x)) == words(x),
{
    lemma_words_trim_start(x);
    lemma_words_trim_end(trim_start(x));
}

proof fn lemma_no_newline_concat(a: Seq<char>, b: Seq<char>)
    requires
        !contains_char(a, '\n'),
        !contains_char(b, '\n'),
    ensures
        !contains_char(a + b, '\n'),
{
    let ab = a + b;
    assert forall|j: int| 0 <= j < ab.len() implies ab[j] != '\n' by {
        if j < a.len() {
            assert(ab[j] == a[j]);
        } else {
            assert(ab[j] == b[j - a.len()]);
        }
    }
}

proof fn lemma_join_fold_counts(ls: Seq<Seq<char>>)
    requires
        forall|i: int| 0 <= i < ls.len() ==> !contains_char(#[trigger] ls[i], '\n'),
    ensures
        ({
            let (res, cont) = join_fold(ls);
            &&& res.len() == 0 || res.last() == '\n'
            &&& cont.len() == 0 || cont.last() == ' '
            &&& !contains_char(cont, '\n')
            &&& lines(res).len() == plain_lines(ls)
            &&& (cont.len() > 0 <==> (ls.len() > 0 && ends_with_char(ls.last(), '\\')))
            &&& words(res) + words(cont) == line_words(ls)
        }),
    decreases ls.len(),
{
    if ls.len() == 0 {
        assert(words(Seq::<char>::empty()) =~= Seq::<Seq<char>>::empty());
        assert(lines(Seq::<char>::empty()) =~= Seq::<Seq<char>>::empty());
    } else {
        let front = ls.drop_last();
        assert forall|i: int| 0 <= i < front.len() implies !contains_char(#[trigger] front[i], '\n') by {
            assert(front[i] == ls[i]);
        }
        lemma_join_fold_counts(front);
        let (res, cont) = join_fold(front);
        let line = ls.last();
        assert(!contains_char(line, '\n'));
        assert(line_words(ls) == line_words(front) + words(unslashed(line)));
        if ends_with_char(line, '\\') {
            let d = line.drop_last();
            let e = trim_end(d);
            crate::text::lemma_trim_end_prefix(d, crate::text::CharClass::Space);
            assert forall|j: int| 0 <= j < e.len() implies e[j] != '\n' by {
                assert(e[j] == d[j]);
                assert(d[j] == line[j]);
            }
            let c2 = cont + e + seq![' '];
            assert(!contains_char(seq![' '], '\n'));
            lemma_no_newline_concat(cont, e);
            lemma_no_newline_concat(cont + e, seq![' ']);
            // words(c2) == words(cont) + words(d)
            assert(is_ws(' '));
            lemma_words_acc_ws_end(cont + e, ' ', seq![], seq![]);
            assert((cont + e).push(' ') =~= c2);
            lemma_words_append(cont, e);
            lemma_words_trim_end(d);
            assert(words(res) + words(c2) =~= words(res) + words(cont) + words(d));
            assert(plain_lines(ls) == plain_lines(front));
        } else {
            assert(unslashed(line) == line);
            assert(plain_lines(ls) == plain_lines(front) + 1);
            if cont.len() > 0 {
                let t = trim(line);
                lemma_trim_twice(line, '\n');
                lemma_no_newline_concat(cont, t);
                let p = cont + t;
                lemma_lines_piece(res, p);
                assert(res + cont + t + seq!['\n'] =~= res + (p + seq!['\n']));
                let r2 = res + (p + seq!['\n']);
                // words
                assert(is_ws('\n'));
                lemma_words_acc_ws_end(p, '\n', seq![], seq![]);
                assert(p.push('\n') =~= p + seq!['\n']);
                lemma_words_append(res, p + seq!['\n']);
                lemma_words_append(cont, t);
                lemma_words_trim(line);
                assert(words(Seq::<char>::empty()) =~= Seq::<Seq<char>>::empty());
                assert(words(r2) + words(Seq::<char>::empty()) =~= words(res) + words(cont) + words(
                    line,
                ));
            } else {
                lemma_lines_piece(res, line);
                assert(res + line + seq!['\n'] =~= res + (line + seq!['\n']));
                lemma_words_acc_ws_end(line, '\n', seq![], seq![]);
                assert(line.push('\n') =~= line + seq!['\n']);
                lemma_words_append(res, line + seq!['\n']);
                assert(words(cont) =~= Seq::<Seq<char>>::empty());
                assert(words(res + (line + seq!['\n'])) + words(cont) =~= words(res) + words(cont)
                    + words(line));
            }
        }
    }
}

/// Joining continuation lines gives one line for every line that does not
/// end in a backslash, and one more when the text's last line ends in one;
/// and it keeps the whitespace-separated words of the text, each line read
/// without its trailing backslash.
pub proof fn law_joined_lines_and_words(input: Seq<char>)
    ensures
        lines(joined(input)).len() == plain_lines(lines(input)) + if lines(input).len() > 0
            && ends_with_char(lines(input).last(), '\\') {
            1nat
        } else {
            0nat
        },
        words(joined(input)) == line_words(lines(input)),
{
    let ls = lines(input);
    lemma_lines_no_newline(input);
    lemma_join_fold_counts(ls);
    let (res, cont) = join_fold(ls);
    if cont.len() > 0 {
        lemma_lines_piece(res, cont);
        assert(res + cont + seq!['\n'] =~= res + (cont + seq!['\n']));
        lemma_words_acc_ws_end(cont, '\n', seq![], seq![]);
        assert(cont.push('\n') =~= cont + seq!['\n']);
        lemma_words_append(res, cont + seq!['\n']);
    } else {
        assert(words(cont) =~= Seq::<Seq<char>>::empty());
        assert(words(res) + words(cont) =~= words(res));
    }
}

} // verus!
