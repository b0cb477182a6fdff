//! Directives with no dinit counterpart, reported as warnings.

use vstd::prelude::*;

use crate::model::{push_warning, warning, warnings_view, Severity, Warning, WarningView};
use crate::parser::{entries_of, EntryV, SectionsV, SystemdUnit};
use crate::text::{chars_of, push_all, push_str, str_eq, string_of, vec_eq};

verus! {

/// `[Service]` sandboxing directives dinit has no counterpart for.
pub open spec fn is_sandboxing(k: Seq<char>) -> bool {
    ||| k == "ProtectSystem"@
    ||| k == "ProtectHome"@
    ||| k == "PrivateTmp"@
    ||| k == "PrivateDevices"@
    ||| k == "PrivateNetwork"@
    ||| k == "ProtectKernelTunables"@
    ||| k == "ProtectKernelModules"@
    ||| k == "ProtectControlGroups"@
    ||| k == "NoNewPrivileges"@
    ||| k == "ReadOnlyPaths"@
    ||| k == "ReadWritePaths"@
    ||| k == "InaccessiblePaths"@
    ||| k == "ProtectHostname"@
    ||| k == "LockPersonality"@
    ||| k == "MemoryDenyWriteExecute"@
    ||| k == "RestrictRealtime"@
    ||| k == "RestrictSUIDSGID"@
    ||| k == "RestrictNamespaces"@
    ||| k == "SystemCallFilter"@
    ||| k == "SystemCallArchitectures"@
    ||| k == "CapabilityBoundingSet"@
    ||| k == "AmbientCapabilities"@
    ||| k == "SecureBits"@
    ||| k == "ProtectClock"@
    ||| k == "ProtectKernelLogs"@
    ||| k == "IPAddressDeny"@
    ||| k == "RestrictAddressFamilies"@
    ||| k == "PrivateUsers"@
    ||| k == "DynamicUser"@
    ||| k == "SupplementaryGroups"@
}

fn is_sandboxing_exec(k: &str) -> (r: bool)
    ensures
        r == is_sandboxing(k@),
{
    str_eq(k, "ProtectSystem")
        || str_eq(k, "ProtectHome")
        || str_eq(k, "PrivateTmp")
        || str_eq(k, "PrivateDevices")
        || str_eq(k, "PrivateNetwork")
        || str_eq(k, "ProtectKernelTunables")
        || str_eq(k, "ProtectKernelModules")
        || str_eq(k, "ProtectControlGroups")
        || str_eq(k, "NoNewPrivileges")
        || str_eq(k, "ReadOnlyPaths")
        || str_eq(k, "ReadWritePaths")
        || str_eq(k, "InaccessiblePaths")
        || str_eq(k, "ProtectHostname")
        || str_eq(k, "LockPersonality")
        || str_eq(k, "MemoryDenyWriteExecute")
        || str_eq(k, "RestrictRealtime")
        || str_eq(k, "RestrictSUIDSGID")
        || str_eq(k, "RestrictNamespaces")
        || str_eq(k, "SystemCallFilter")
        || str_eq(k, "SystemCallArchitectures")
        || str_eq(k, "CapabilityBoundingSet")
        || str_eq(k, "AmbientCapabilities")
        || str_eq(k, "SecureBits")
        || str_eq(k, "ProtectClock")
        || str_eq(k, "ProtectKernelLogs")
        || str_eq(k, "IPAddressDeny")
        || str_eq(k, "RestrictAddressFamilies")
        || str_eq(k, "PrivateUsers")
        || str_eq(k, "DynamicUser")
        || str_eq(k, "SupplementaryGroups")
}

/// `[Service]` cgroup and resource directives.
pub open spec fn is_cgroup(k: Seq<char>) -> bool {
    ||| k == "Slice"@
    ||| k == "CPUQuota"@
    ||| k == "MemoryMax"@
    ||| k == "MemoryHigh"@
    ||| k == "MemoryLow"@
    ||| k == "IOWeight"@
    ||| k == "IODeviceWeight"@
    ||| k == "TasksMax"@
    ||| k == "Delegate"@
}

fn is_cgroup_exec(k: &str) -> (r: bool)
    ensures
        r == is_cgroup(k@),
{
    str_eq(k, "Slice")
        || str_eq(k, "CPUQuota")
        || str_eq(k, "MemoryMax")
        || str_eq(k, "MemoryHigh")
        || str_eq(k, "MemoryLow")
        || str_eq(k, "IOWeight")
        || str_eq(k, "IODeviceWeight")
        || str_eq(k, "TasksMax")
        || str_eq(k, "Delegate")
}

/// `[Unit]` conditions and assertions.
pub open spec fn is_conditional(k: Seq<char>) -> bool {
    ||| k == "ConditionPathExists"@
    ||| k == "ConditionPathIsDirectory"@
    ||| k == "ConditionFileNotEmpty"@
    ||| k == "ConditionDirectoryNotEmpty"@
    ||| k == "ConditionKernelCommandLine"@
    ||| k == "ConditionVirtualization"@
    ||| k == "ConditionArchitecture"@
    ||| k == "ConditionSecurity"@
    ||| k == "AssertPathExists"@
}

fn is_conditional_exec(k: &str) -> (r: bool)
    ensures
        r == is_conditional(k@),
{
    str_eq(k, "ConditionPathExists")
        || str_eq(k, "ConditionPathIsDirectory")
        || str_eq(k, "ConditionFileNotEmpty")
        || str_eq(k, "ConditionDirectoryNotEmpty")
        || str_eq(k, "ConditionKernelCommandLine")
        || str_eq(k, "ConditionVirtualization")
        || str_eq(k, "ConditionArchitecture")
        || str_eq(k, "ConditionSecurity")
        || str_eq(k, "AssertPathExists")
}

/// `[Socket]` activation directives.
pub open spec fn is_socket_directive(k: Seq<char>) -> bool {
    ||| k == "ListenStream"@
    ||| k == "ListenDatagram"@
    ||| k == "ListenSequentialPacket"@
    ||| k == "Accept"@
}

fn is_socket_directive_exec(k: &str) -> (r: bool)
    ensures
        r == is_socket_directive(k@),
{
    str_eq(k, "ListenStream")
        || str_eq(k, "ListenDatagram")
        || str_eq(k, "ListenSequentialPacket")
        || str_eq(k, "Accept")
}

/// Which section a directive was found in.
#[derive(Clone, Copy)]
pub enum ScopeKind {
    Service,
    Unit,
    Socket,
}

/// The warning for directive `k` of a section of the given kind, if any.
pub open spec fn scope_warning(kind: ScopeKind, k: Seq<char>) -> Seq<WarningView> {
    match kind {
        ScopeKind::Service => if is_sandboxing(k) {
            seq![warning(k, k + " (sandboxing) not supported — skipped"@, Severity::Info)]
        } else if is_cgroup(k) {
            seq![warning(k, k + " (cgroup) not supported — skipped"@, Severity::Info)]
        } else {
            seq![]
        },
        ScopeKind::Unit => if is_conditional(k) {
            seq![warning(k, k + " (conditional) not supported — skipped"@, Severity::Warn)]
        } else {
            seq![]
        },
        ScopeKind::Socket => if is_socket_directive(k) {
            seq![warning(k, k + " (socket activation) not supported — skipped"@, Severity::Warn)]
        } else {
            seq![]
        },
    }
}

pub open spec fn scope_warnings(keys: Seq<Seq<char>>, kind: ScopeKind) -> Seq<WarningView>
    decreases keys.len(),
{
    if keys.len() == 0 {
        seq![]
    } else {
        scope_warnings(keys.drop_last(), kind) + scope_warning(kind, keys.last())
    }
}

/// The keys of the entries, each once, in order of first appearance.
pub open spec fn distinct_keys(es: Seq<EntryV>) -> Seq<Seq<char>>
    decreases es.len(),
{
    if es.len() == 0 {
        seq![]
    } else {
        let d = distinct_keys(es.drop_last());
        if d.contains(es.last().0) {
            d
        } else {
            d.push(es.last().0)
        }
    }
}

pub open spec fn section_scope_warnings(m: SectionsV, section: Seq<char>, kind: ScopeKind) -> Seq<
    WarningView,
> {
    scope_warnings(distinct_keys(entries_of(m, section)), kind)
}

/// Every out-of-scope directive of `[Service]`, `[Unit]` and `[Socket]`, each
/// once, in that order.
pub open spec fn out_of_scope_warnings(m: SectionsV) -> Seq<WarningView> {
    section_scope_warnings(m, "Service"@, ScopeKind::Service) + section_scope_warnings(
        m,
        "Unit"@,
        ScopeKind::Unit,
    ) + section_scope_warnings(m, "Socket"@, ScopeKind::Socket)
}

fn seen_contains(seen: &Vec<Vec<char>>, k: &Vec<char>) -> (r: bool)
    ensures
        r == seen.deep_view().contains(k@),
{
    let mut i: usize = 0;
    while i < seen.len()
        invariant
            i <= seen.len(),
            forall|j: int| 0 <= j < i ==> seen.deep_view()[j] != k@,
        decreases seen.len() - i,
    {
        assert(seen.deep_view()[i as int] =~= seen@[i as int]@);
        if vec_eq(&seen[i], k) {
            assert(seen.deep_view()[i as int] == k@);
            return true;
        }
        i = i + 1;
    }
    false
}

fn scope_warning_exec(kind: ScopeKind, key: &String, warnings: &mut Vec<Warning>)
    ensures
        warnings_view(final(warnings)@) == warnings_view(old(warnings)@) + scope_warning(kind, key@),
{
    let ghost w0 = warnings_view(warnings@);
    let k = key.as_str();
    let (hit, tag, sev) = match kind {
        ScopeKind::Service => if is_sandboxing_exec(k) {
            (true, " (sandboxing) not supported — skipped", Severity::Info)
        } else if is_cgroup_exec(k) {
            (true, " (cgroup) not supported — skipped", Severity::Info)
        } else {
            (false, "", Severity::Info)
        },
        ScopeKind::Unit => if is_conditional_exec(k) {
            (true, " (conditional) not supported — skipped", Severity::Warn)
        } else {
            (false, "", Severity::Warn)
        },
        ScopeKind::Socket => if is_socket_directive_exec(k) {
            (true, " (socket activation) not supported — skipped", Severity::Warn)
        } else {
            (false, "", Severity::Warn)
        },
    };
    if hit {
        let mut m: Vec<char> = Vec::new();
        push_str(&mut m, k);
        push_str(&mut m, tag);
        push_warning(warnings, key.clone(), string_of(&m), sev);
    } else {
        assert(w0 + seq![] =~= w0);
    }
}

fn scan_section(unit: &SystemdUnit, section: &str, kind: ScopeKind, warnings: &mut Vec<Warning>)
    ensures
        warnings_view(final(warnings)@) == warnings_view(old(warnings)@) + section_scope_warnings(
            unit@.sections,
            section@,
            kind,
        ),
{
    let ghost w0 = warnings_view(warnings@);
    match unit.section_entries(section) {
        None => {
            assert(distinct_keys(Seq::<EntryV>::empty()) =~= Seq::<Seq<char>>::empty());
            assert(w0 + seq![] =~= w0);
        },
        Some(es) => {
            let mut seen: Vec<Vec<char>> = Vec::new();
            let mut i: usize = 0;
            assert(es.deep_view().take(0) =~= Seq::<EntryV>::empty());
            assert(seen.deep_view() =~= Seq::<Seq<char>>::empty());
            assert(w0 + seq![] =~= w0);
            while i < es.len()
                invariant
                    i <= es.len(),
                    seen.deep_view() == distinct_keys(es.deep_view().take(i as int)),
                    warnings_view(warnings@) == w0 + scope_warnings(seen.deep_view(), kind),
                decreases es.len() - i,
            {
                assert(es.deep_view().take(i + 1).drop_last() =~= es.deep_view().take(i as int));
                let k = chars_of(es[i].0.as_str());
                if !seen_contains(&seen, &k) {
                    let ghost s0 = seen.deep_view();
                    scope_warning_exec(kind, &es[i].0, warnings);
                    assert(k.deep_view() =~= k@);
                    seen.push(k);
                    assert(seen.deep_view() =~= s0.push(k@));
                    assert(seen.deep_view().drop_last() =~= s0);
                    assert(w0 + scope_warnings(s0, kind) + scope_warning(kind, k@) =~= w0 + (
                    scope_warnings(s0, kind) + scope_warning(kind, k@)));
                }
                i = i + 1;
            }
            assert(es.deep_view().take(es.len() as int) =~= es.deep_view());
        },
    }
}

/// Warns once per distinct out-of-scope directive: sandboxing and cgroup
/// directives of `[Service]` (info), conditions of `[Unit]` and socket
/// activation of `[Socket]` (warnings).
pub fn warn_out_of_scope(unit: &SystemdUnit, warnings: &mut Vec<Warning>)
    ensures
        warnings_view(final(warnings)@) == warnings_view(old(warnings)@) + out_of_scope_warnings(
            unit@.sections,
        ),
{
    let ghost w0 = warnings_view(warnings@);
    scan_section(unit, "Service", ScopeKind::Service, warnings);
    scan_section(unit, "Unit", ScopeKind::Unit, warnings);
    scan_section(unit, "Socket", ScopeKind::Socket, warnings);
    assert(warnings_view(warnings@) =~= w0 + out_of_scope_warnings(unit@.sections));
}

} // verus!
