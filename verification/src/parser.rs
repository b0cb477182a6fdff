//! Reading systemd unit files: sections, `Key=Value` entries, continuation
//! lines, comments, empty-value resets and drop-in overrides.

use vstd::prelude::*;

use crate::error::ParseError;
use crate::text::{
    chars_of, decimal, decimal_of, ends_with_char, find_char, find_in, lines, push_all, push_str,
    slice_of, split_lines, string_of, trim, trim_end, trim_end_range, trim_range, vec_eq, CharClass,
};

verus! {

/// One `Key=Value` entry, as text.
pub type EntryV = (Seq<char>, Seq<char>);

/// The sections of a unit: section name to its entries, in file order.
pub type SectionsV = Map<Seq<char>, Seq<EntryV>>;

/// One `[Name]` section and its entries in the order they were read.
#[derive(Debug, Clone)]
pub struct Section {
    pub name: String,
    pub entries: Vec<(String, String)>,
}

/// A parsed unit file together with the drop-ins merged into it.
///
/// `sections` holds each section once; should the same name stand twice,
/// the first one is the one that counts.
#[derive(Debug, Clone)]
pub struct SystemdUnit {
    pub sections: Vec<Section>,
    pub source_path: String,
    pub drop_in_paths: Vec<String>,
    pub parse_warnings: Vec<String>,
}

/// The abstract content of a [`SystemdUnit`].
pub struct UnitView {
    pub sections: SectionsV,
    pub source_path: Seq<char>,
    pub drop_in_paths: Seq<Seq<char>>,
    pub parse_warnings: Seq<Seq<char>>,
}

/// Sections as a map; the first section of a name wins.
pub open spec fn sections_map(s: Seq<Section>) -> SectionsV
    decreases s.len(),
{
    if s.len() == 0 {
        Map::empty()
    } else {
        sections_map(s.drop_first()).insert(s[0].name@, s[0].entries.deep_view())
    }
}

impl View for SystemdUnit {
    type V = UnitView;

    open spec fn view(&self) -> UnitView {
        UnitView {
            sections: sections_map(self.sections@),
            source_path: self.source_path@,
            drop_in_paths: self.drop_in_paths.deep_view(),
            parse_warnings: self.parse_warnings.deep_view(),
        }
    }
}

// ---------------------------------------------------------------------
// Lookups
// ---------------------------------------------------------------------

/// The values assigned to `key`, in order.
pub open spec fn values_for(es: Seq<EntryV>, key: Seq<char>) -> Seq<Seq<char>>
    decreases es.len(),
{
    if es.len() == 0 {
        seq![]
    } else {
        let v = values_for(es.drop_last(), key);
        if es.last().0 == key {
            v.push(es.last().1)
        } else {
            v
        }
    }
}

/// The entries without those of `key`.
pub open spec fn without_key(es: Seq<EntryV>, key: Seq<char>) -> Seq<EntryV>
    decreases es.len(),
{
    if es.len() == 0 {
        seq![]
    } else {
        let w = without_key(es.drop_last(), key);
        if es.last().0 == key {
            w
        } else {
            w.push(es.last())
        }
    }
}

/// All values of `key` in `section` (none when the section is absent).
pub open spec fn lookup_all(m: SectionsV, section: Seq<char>, key: Seq<char>) -> Seq<Seq<char>> {
    if m.dom().contains(section) {
        values_for(m[section], key)
    } else {
        seq![]
    }
}

/// The last value of `key` in `section`.
pub open spec fn lookup(m: SectionsV, section: Seq<char>, key: Seq<char>) -> Option<Seq<char>> {
    let vs = lookup_all(m, section, key);
    if vs.len() == 0 {
        None
    } else {
        Some(vs.last())
    }
}

// ---------------------------------------------------------------------
// The line-by-line reading of a unit
// ---------------------------------------------------------------------

/// The state while reading lines: the sections so far, the section the
/// next entry goes to, and the warnings so far.
pub struct ParseState {
    pub sections: SectionsV,
    pub current: Option<Seq<char>>,
    pub warnings: Seq<Seq<char>>,
}

pub open spec fn ensure_section(m: SectionsV, name: Seq<char>) -> SectionsV {
    if m.dom().contains(name) {
        m
    } else {
        m.insert(name, seq![])
    }
}

pub open spec fn entries_of(m: SectionsV, name: Seq<char>) -> Seq<EntryV> {
    if m.dom().contains(name) {
        m[name]
    } else {
        seq![]
    }
}

/// `Key=Value` in `section`: an empty value removes the key's earlier
/// entries, any other value is appended.
pub open spec fn assign(m: SectionsV, section: Seq<char>, key: Seq<char>, value: Seq<char>) -> SectionsV {
    let es = entries_of(m, section);
    m.insert(
        section,
        if value.len() == 0 {
            without_key(es, key)
        } else {
            es.push((key, value))
        },
    )
}

pub open spec fn malformed_msg(n: nat, line: Seq<char>) -> Seq<char> {
    "line "@ + decimal(n) + ": not a valid key=value pair: "@ + line
}

pub open spec fn outside_msg(n: nat, line: Seq<char>) -> Seq<char> {
    "line "@ + decimal(n) + ": directive outside of section: "@ + line
}

pub open spec fn is_comment_or_blank(line: Seq<char>) -> bool {
    line.len() == 0 || line[0] == '#' || line[0] == ';'
}

pub open spec fn is_header(line: Seq<char>) -> bool {
    line.len() > 0 && line[0] == '[' && line.last() == ']'
}

/// Reads line number `n` (counted from 1), `raw`; warnings are recorded only
/// when `warn` holds.
pub open spec fn apply_line(st: ParseState, n: nat, raw: Seq<char>, warn: bool) -> ParseState {
    let line = trim(raw);
    if is_comment_or_blank(line) {
        st
    } else if is_header(line) {
        let name = line.subrange(1, line.len() - 1);
        ParseState {
            sections: ensure_section(st.sections, name),
            current: Some(name),
            warnings: st.warnings,
        }
    } else {
        match st.current {
            Some(sec) => match find_char(line, '=') {
                Some(p) => ParseState {
                    sections: assign(st.sections, sec, trim(line.take(p)), trim(line.skip(p + 1))),
                    current: st.current,
                    warnings: st.warnings,
                },
                None => if warn {
                    ParseState {
                        sections: st.sections,
                        current: st.current,
                        warnings: st.warnings.push(malformed_msg(n, line)),
                    }
                } else {
                    st
                },
            },
            None => if warn {
                ParseState {
                    sections: st.sections,
                    current: st.current,
                    warnings: st.warnings.push(outside_msg(n, line)),
                }
            } else {
                st
            },
        }
    }
}

/// Reads the lines in order, numbering them from 1.
pub open spec fn lines_applied(st: ParseState, ls: Seq<Seq<char>>, warn: bool) -> ParseState
    decreases ls.len(),
{
    if ls.len() == 0 {
        st
    } else {
        apply_line(lines_applied(st, ls.drop_last(), warn), ls.len() as nat, ls.last(), warn)
    }
}

// ---------------------------------------------------------------------
// Continuation lines
// ---------------------------------------------------------------------

/// One step of joining: the text so far and the pending continuation.
pub open spec fn join_step(st: (Seq<char>, Seq<char>), line: Seq<char>) -> (Seq<char>, Seq<char>) {
    let (res, cont) = st;
    if ends_with_char(line, '\\') {
        (res, cont + trim_end(line.drop_last()) + seq![' '])
    } else if cont.len() > 0 {
        (res + cont + trim(line) + seq!['\n'], seq![])
    } else {
        (res + line + seq!['\n'], cont)
    }
}

pub open spec fn join_fold(ls: Seq<Seq<char>>) -> (Seq<char>, Seq<char>)
    decreases ls.len(),
{
    if ls.len() == 0 {
        (seq![], seq![])
    } else {
        join_step(join_fold(ls.drop_last()), ls.last())
    }
}

/// The text with every line that ends in a backslash joined to the next.
pub open spec fn joined(input: Seq<char>) -> Seq<char> {
    let (res, cont) = join_fold(lines(input));
    if cont.len() > 0 {
        res + cont + seq!['\n']
    } else {
        res
    }
}

/// What reading `input` from scratch yields.
pub open spec fn initial_state() -> ParseState {
    ParseState { sections: Map::empty(), current: None, warnings: seq![] }
}

pub open spec fn parse_state(input: Seq<char>) -> ParseState {
    lines_applied(initial_state(), lines(joined(input)), true)
}

/// What merging the drop-in `input` does to the sections `m`.
pub open spec fn merged_sections(m: SectionsV, warnings: Seq<Seq<char>>, input: Seq<char>) -> SectionsV {
    lines_applied(
        ParseState { sections: m, current: None, warnings },
        lines(joined(input)),
        false,
    ).sections
}

// ---------------------------------------------------------------------
// Proofs about the section map
// ---------------------------------------------------------------------

pub proof fn lemma_sections_map_first(s: Seq<Section>, name: Seq<char>, i: int)
    requires
        0 <= i < s.len(),
        s[i].name@ == name,
        forall|j: int| 0 <= j < i ==> s[j].name@ != name,
    ensures
        sections_map(s).dom().contains(name),
        sections_map(s)[name] == s[i].entries.deep_view(),
    decreases i,
{
    if i > 0 {
        let t = s.drop_first();
        assert forall|j: int| 0 <= j < i - 1 implies (#[trigger] t[j]).name@ != name by {
            assert(t[j] == s[j + 1]);
        }
        lemma_sections_map_first(t, name, i - 1);
    }
}

pub proof fn lemma_sections_map_absent(s: Seq<Section>, name: Seq<char>)
    requires
        forall|j: int| 0 <= j < s.len() ==> s[j].name@ != name,
    ensures
        !sections_map(s).dom().contains(name),
    decreases s.len(),
{
    if s.len() > 0 {
        let t = s.drop_first();
        assert forall|j: int| 0 <= j < t.len() implies (#[trigger] t[j]).name@ != name by {
            assert(t[j] == s[j + 1]);
        }
        lemma_sections_map_absent(t, name);
    }
}

pub proof fn lemma_sections_map_update(s: Seq<Section>, i: int, x: Section)
    requires
        0 <= i < s.len(),
        x.name@ == s[i].name@,
        forall|j: int| 0 <= j < i ==> s[j].name@ != s[i].name@,
    ensures
        sections_map(s.update(i, x)) == sections_map(s).insert(x.name@, x.entries.deep_view()),
    decreases i,
{
    let u = s.update(i, x);
    if i == 0 {
        assert(u.drop_first() =~= s.drop_first());
        assert(sections_map(u) =~= sections_map(s).insert(x.name@, x.entries.deep_view()));
    } else {
        let t = s.drop_first();
        assert forall|j: int| 0 <= j < i - 1 implies (#[trigger] t[j]).name@ != t[i - 1].name@ by {
            assert(t[j] == s[j + 1]);
        }
        lemma_sections_map_update(t, i - 1, x);
        assert(u.drop_first() =~= t.update(i - 1, x));
        assert(u[0] == s[0]);
        assert(s[0].name@ != x.name@);
        let a = sections_map(t);
        assert(sections_map(u) == sections_map(t.update(i - 1, x)).insert(s[0].name@, s[0].entries.deep_view()));
        assert(sections_map(s) == a.insert(s[0].name@, s[0].entries.deep_view()));
        assert(a.insert(x.name@, x.entries.deep_view()).insert(s[0].name@, s[0].entries.deep_view())
            =~= a.insert(s[0].name@, s[0].entries.deep_view()).insert(x.name@, x.entries.deep_view()));
    }
}

pub proof fn lemma_sections_map_push(s: Seq<Section>, x: Section)
    requires
        !sections_map(s).dom().contains(x.name@),
    ensures
        sections_map(s.push(x)) == sections_map(s).insert(x.name@, x.entries.deep_view()),
    decreases s.len(),
{
    let u = s.push(x);
    if s.len() == 0 {
        assert(u.drop_first() =~= Seq::<Section>::empty());
        assert(u[0] == x);
        assert(sections_map(u.drop_first()) == Map::<Seq<char>, Seq<EntryV>>::empty());
        assert(sections_map(u) =~= sections_map(s).insert(x.name@, x.entries.deep_view()));
    } else {
        let t = s.drop_first();
        assert(u.drop_first() =~= t.push(x));
        if sections_map(t).dom().contains(x.name@) {
            assert(sections_map(s).dom().contains(x.name@));
        }
        lemma_sections_map_push(t, x);
        assert(u[0] == s[0]);
        assert(s[0].name@ != x.name@);
        let a = sections_map(t);
        assert(sections_map(u) == sections_map(t.push(x)).insert(s[0].name@, s[0].entries.deep_view()));
        assert(sections_map(s) == a.insert(s[0].name@, s[0].entries.deep_view()));
        assert(a.insert(x.name@, x.entries.deep_view()).insert(s[0].name@, s[0].entries.deep_view())
            =~= a.insert(s[0].name@, s[0].entries.deep_view()).insert(x.name@, x.entries.deep_view()));
    }
}

pub proof fn lemma_sections_map_empty(s: Seq<Section>)
    ensures
        (s.len() == 0) <==> (sections_map(s).dom() =~= Set::<Seq<char>>::empty()),
{
    if s.len() > 0 {
        assert(sections_map(s).dom().contains(s[0].name@));
    }
}

// ---------------------------------------------------------------------
// Executable helpers over sections
// ---------------------------------------------------------------------

/// Index of the first section named `name`.
fn find_section(secs: &Vec<Section>, name: &Vec<char>) -> (r: Option<usize>)
    ensures
        r matches Some(i) ==> i < secs.len() && secs@[i as int].name@ == name@ && forall|j: int|
            0 <= j < i ==> secs@[j].name@ != name@,
        r is None ==> forall|j: int| 0 <= j < secs.len() ==> secs@[j].name@ != name@,
{
    let mut i: usize = 0;
    while i < secs.len()
        invariant
            i <= secs.len(),
            forall|j: int| 0 <= j < i ==> secs@[j].name@ != name@,
        decreases secs.len() - i,
    {
        let n = chars_of(secs[i].name.as_str());
        if vec_eq(&n, name) {
            return Some(i);
        }
        i = i + 1;
    }
    None
}

/// Makes sure a section named `name` exists.
fn ensure_section_exec(secs: &mut Vec<Section>, name: &Vec<char>)
    ensures
        sections_map(final(secs)@) == ensure_section(sections_map(old(secs)@), name@),
{
    match find_section(secs, name) {
        Some(i) => {
            proof {
                lemma_sections_map_first(secs@, name@, i as int);
            }
        },
        None => {
            proof {
                lemma_sections_map_absent(secs@, name@);
            }
            let sec = Section { name: string_of(name), entries: Vec::new() };
            assert(sec.entries.deep_view() =~= Seq::<EntryV>::empty());
            proof {
                lemma_sections_map_push(secs@, sec);
            }
            secs.push(sec);
        },
    }
}

/// Entries without those of `key`.
fn remove_key(es: &Vec<(String, String)>, key: &Vec<char>) -> (r: Vec<(String, String)>)
    ensures
        r.deep_view() == without_key(es.deep_view(), key@),
{
    let mut out: Vec<(String, String)> = Vec::new();
    let mut i: usize = 0;
    assert(es.deep_view().take(0) =~= Seq::<EntryV>::empty());
    assert(out.deep_view() =~= Seq::<EntryV>::empty());
    while i < es.len()
        invariant
            i <= es.len(),
            out.deep_view() == without_key(es.deep_view().take(i as int), key@),
        decreases es.len() - i,
    {
        let k = chars_of(es[i].0.as_str());
        let ghost before = out.deep_view();
        assert(es.deep_view().take(i + 1).drop_last() =~= es.deep_view().take(i as int));
        if !vec_eq(&k, key) {
            let e = (es[i].0.clone(), es[i].1.clone());
            out.push(e);
            assert(out.deep_view() =~= before.push(es.deep_view()[i as int]));
        }
        i = i + 1;
    }
    assert(es.deep_view().take(es.len() as int) =~= es.deep_view());
    out
}

/// Applies `key = value` to the section at index `i`.
fn assign_exec(secs: &mut Vec<Section>, i: usize, key: Vec<char>, value: Vec<char>)
    requires
        i < old(secs).len(),
        forall|j: int| 0 <= j < i ==> old(secs)@[j].name@ != old(secs)@[i as int].name@,
    ensures
        sections_map(final(secs)@) == assign(
            sections_map(old(secs)@),
            old(secs)@[i as int].name@,
            key@,
            value@,
        ),
{
    let ghost s0 = secs@;
    let ghost name = secs@[i as int].name@;
    proof {
        lemma_sections_map_first(s0, name, i as int);
    }
    let sec = secs.remove(i);
    let new_entries = if value.len() == 0 {
        remove_key(&sec.entries, &key)
    } else {
        let mut es = sec.entries;
        let ghost before = es.deep_view();
        es.push((string_of(&key), string_of(&value)));
        assert(es.deep_view() =~= before.push((key@, value@)));
        es
    };
    let new_sec = Section { name: sec.name, entries: new_entries };
    proof {
        lemma_sections_map_update(s0, i as int, new_sec);
    }
    secs.insert(i, new_sec);
    assert(secs@ =~= s0.update(i as int, new_sec));
}

// ---------------------------------------------------------------------
// Reading lines
// ---------------------------------------------------------------------

fn malformed_message(n: usize, line: &Vec<char>, malformed: bool) -> (r: String)
    ensures
        malformed ==> r@ == malformed_msg(n as nat, line@),
        !malformed ==> r@ == outside_msg(n as nat, line@),
{
    let mut v: Vec<char> = Vec::new();
    push_str(&mut v, "line ");
    let d = decimal_of(n);
    push_all(&mut v, &d);
    if malformed {
        push_str(&mut v, ": not a valid key=value pair: ");
    } else {
        push_str(&mut v, ": directive outside of section: ");
    }
    push_all(&mut v, line);
    string_of(&v)
}

/// The invariant of the reading state: the current section exists.
pub open spec fn state_ok(st: ParseState) -> bool {
    st.current matches Some(c) ==> st.sections.dom().contains(c)
}

fn apply_line_exec(
    secs: &mut Vec<Section>,
    current: &mut Option<Vec<char>>,
    warnings: &mut Vec<String>,
    n: usize,
    raw: &Vec<char>,
    warn: bool,
)
    requires
        state_ok(
            ParseState {
                sections: sections_map(old(secs)@),
                current: old(current).deep_view(),
                warnings: old(warnings).deep_view(),
            },
        ),
    ensures
        ({
            let st = apply_line(
                ParseState {
                    sections: sections_map(old(secs)@),
                    current: old(current).deep_view(),
                    warnings: old(warnings).deep_view(),
                },
                n as nat,
                raw@,
                warn,
            );
            &&& st.sections == sections_map(final(secs)@)
            &&& st.current == final(current).deep_view()
            &&& st.warnings == final(warnings).deep_view()
            &&& state_ok(st)
        }),
{
    let ghost st0 = ParseState {
        sections: sections_map(secs@),
        current: current.deep_view(),
        warnings: warnings.deep_view(),
    };
    let (a, b) = trim_range(raw, 0, raw.len(), CharClass::Space);
    assert(raw@.subrange(0, raw.len() as int) =~= raw@);
    let line = slice_of(raw, a, b);
    assert(line@ == trim(raw@));
    if line.len() == 0 || line[0] == '#' || line[0] == ';' {
        return ;
    }
    if line[0] == '[' && line[line.len() - 1] == ']' {
        let name = slice_of(&line, 1, line.len() - 1);
        ensure_section_exec(secs, &name);
        assert(name.deep_view() =~= name@);
        *current = Some(name);
        return ;
    }
    match &*current {
        Some(sec) => {
            assert(sec.deep_view() =~= sec@);
            assert(line@.subrange(0, line.len() as int) =~= line@);
            match find_in(&line, 0, line.len(), '=') {
                Some(p) => {
                    let (ka, kb) = trim_range(&line, 0, p, CharClass::Space);
                    let (va, vb) = trim_range(&line, p + 1, line.len(), CharClass::Space);
                    assert(line@.subrange(0, p as int) =~= line@.take(p as int));
                    assert(line@.subrange(p + 1, line.len() as int) =~= line@.skip(p + 1));
                    let key = slice_of(&line, ka, kb);
                    let value = slice_of(&line, va, vb);
                    match find_section(secs, sec) {
                        Some(i) => {
                            assign_exec(secs, i, key, value);
                        },
                        None => {
                            proof {
                                lemma_sections_map_absent(secs@, sec@);
                            }
                            assert(false);
                        },
                    }
                },
                None => {
                    if warn {
                        warnings.push(malformed_message(n, &line, true));
                        assert(warnings.deep_view() =~= st0.warnings.push(malformed_msg(n as nat, line@)));
                    }
                },
            }
        },
        None => {
            if warn {
                warnings.push(malformed_message(n, &line, false));
                assert(warnings.deep_view() =~= st0.warnings.push(outside_msg(n as nat, line@)));
            }
        },
    }
}

fn apply_lines(
    secs: &mut Vec<Section>,
    warnings: &mut Vec<String>,
    ls: &Vec<Vec<char>>,
    warn: bool,
)
    ensures
        ({
            let st = lines_applied(
                ParseState {
                    sections: sections_map(old(secs)@),
                    current: None,
                    warnings: old(warnings).deep_view(),
                },
                ls.deep_view(),
                warn,
            );
            &&& st.sections == sections_map(final(secs)@)
            &&& st.warnings == final(warnings).deep_view()
        }),
{
    let ghost st0 = ParseState {
        sections: sections_map(secs@),
        current: None,
        warnings: warnings.deep_view(),
    };
    let mut current: Option<Vec<char>> = None;
    let mut i: usize = 0;
    assert(ls.deep_view().take(0) =~= Seq::<Seq<char>>::empty());
    while i < ls.len()
        invariant
            i <= ls.len(),
            ({
                let st = lines_applied(st0, ls.deep_view().take(i as int), warn);
                &&& st.sections == sections_map(secs@)
                &&& st.current == current.deep_view()
                &&& st.warnings == warnings.deep_view()
                &&& state_ok(st)
            }),
        decreases ls.len() - i,
    {
        assert(ls.deep_view().take(i + 1).drop_last() =~= ls.deep_view().take(i as int));
        assert(ls.deep_view().take(i + 1).last() == ls@[i as int]@) by {
            assert(ls@[i as int].deep_view() =~= ls@[i as int]@);
        }
        apply_line_exec(secs, &mut current, warnings, i + 1, &ls[i], warn);
        i = i + 1;
    }
    assert(ls.deep_view().take(ls.len() as int) =~= ls.deep_view());
}

/// Joins backslash-continued lines.
fn join_continuations(input: &Vec<char>) -> (r: Vec<char>)
    ensures
        r@ == joined(input@),
{
    let ls = split_lines(input);
    let mut res: Vec<char> = Vec::new();
    let mut cont: Vec<char> = Vec::new();
    let mut i: usize = 0;
    assert(ls.deep_view().take(0) =~= Seq::<Seq<char>>::empty());
    while i < ls.len()
        invariant
            i <= ls.len(),
            ls.deep_view() == lines(input@),
            join_fold(ls.deep_view().take(i as int)) == (res@, cont@),
        decreases ls.len() - i,
    {
        let line = &ls[i];
        assert(ls.deep_view().take(i + 1).drop_last() =~= ls.deep_view().take(i as int));
        assert(ls.deep_view().take(i + 1).last() == line@) by {
            assert(line.deep_view() =~= line@);
        }
        let ghost r0 = res@;
        let ghost c0 = cont@;
        if line.len() > 0 && line[line.len() - 1] == '\\' {
            let e = trim_end_range(line, 0, line.len() - 1, CharClass::Space);
            assert(line@.subrange(0, line.len() - 1) =~= line@.drop_last());
            let part = slice_of(line, 0, e);
            push_all(&mut cont, &part);
            cont.push(' ');
            assert(cont@ =~= c0 + trim_end(line@.drop_last()) + seq![' ']);
        } else if cont.len() > 0 {
            let (a, b) = trim_range(line, 0, line.len(), CharClass::Space);
            assert(line@.subrange(0, line.len() as int) =~= line@);
            let part = slice_of(line, a, b);
            push_all(&mut res, &cont);
            push_all(&mut res, &part);
            res.push('\n');
            assert(res@ =~= r0 + c0 + trim(line@) + seq!['\n']);
            cont = Vec::new();
            assert(cont@ =~= Seq::<char>::empty());
        } else {
            push_all(&mut res, line);
            res.push('\n');
            assert(res@ =~= r0 + line@ + seq!['\n']);
        }
        i = i + 1;
    }
    assert(ls.deep_view().take(ls.len() as int) =~= ls.deep_view());
    if cont.len() > 0 {
        push_all(&mut res, &cont);
        res.push('\n');
    }
    res
}

// ---------------------------------------------------------------------
// Public API
// ---------------------------------------------------------------------

impl SystemdUnit {
    /// Reads a unit file. Continuation lines are joined first; blank lines
    /// and lines starting with `#` or `;` are skipped; `[Name]` opens a
    /// section; `Key=Value` adds an entry to the current section, and an
    /// empty value removes the key's earlier entries. Lines that are neither
    /// are recorded as warnings. Fails when no section header is found.
    pub fn parse(input: &str, source_path: String) -> (r: Result<SystemdUnit, ParseError>)
        ensures
            ({
                let st = parse_state(input@);
                match r {
                    Ok(u) => {
                        &&& st.sections.dom() != Set::<Seq<char>>::empty()
                        &&& u@.sections == st.sections
                        &&& u@.parse_warnings == st.warnings
                        &&& u@.source_path == source_path@
                        &&& u@.drop_in_paths == Seq::<Seq<char>>::empty()
                    },
                    Err(e) => {
                        &&& st.sections.dom() == Set::<Seq<char>>::empty()
                        &&& e matches ParseError::NoSections { path } && path@ == source_path@
                    },
                }
            }),
    {
        let chars = chars_of(input);
        let joined_text = join_continuations(&chars);
        let ls = split_lines(&joined_text);
        let mut secs: Vec<Section> = Vec::new();
        let mut warnings: Vec<String> = Vec::new();
        assert(sections_map(secs@) =~= Map::<Seq<char>, Seq<EntryV>>::empty());
        assert(warnings.deep_view() =~= Seq::<Seq<char>>::empty());
        apply_lines(&mut secs, &mut warnings, &ls, true);
        proof {
            lemma_sections_map_empty(secs@);
        }
        if secs.len() == 0 {
            return Err(ParseError::NoSections { path: source_path });
        }
        let drop_in_paths: Vec<String> = Vec::new();
        assert(drop_in_paths.deep_view() =~= Seq::<Seq<char>>::empty());
        Ok(SystemdUnit { sections: secs, source_path, drop_in_paths, parse_warnings: warnings })
    }

    /// Merges a drop-in override into this unit: entries are added to their
    /// sections (created on demand), empty values reset the key's earlier
    /// entries, malformed lines are ignored without warning, and the
    /// drop-in's path is recorded.
    pub fn merge_drop_in(&mut self, input: &str, drop_in_path: String)
        ensures
            final(self)@.sections == merged_sections(
                old(self)@.sections,
                old(self)@.parse_warnings,
                input@,
            ),
            final(self)@.parse_warnings == old(self)@.parse_warnings,
            final(self)@.source_path == old(self)@.source_path,
            final(self)@.drop_in_paths == old(self)@.drop_in_paths.push(drop_in_path@),
    {
        let chars = chars_of(input);
        let joined_text = join_continuations(&chars);
        let ls = split_lines(&joined_text);
        let ghost w0 = self.parse_warnings.deep_view();
        let ghost m0 = self@.sections;
        apply_lines(&mut self.sections, &mut self.parse_warnings, &ls, false);
        proof {
            lemma_quiet_lines_keep_warnings(
                ParseState { sections: m0, current: None, warnings: w0 },
                ls.deep_view(),
            );
        }
        let ghost p0 = self.drop_in_paths.deep_view();
        self.drop_in_paths.push(drop_in_path);
        assert(self.drop_in_paths.deep_view() =~= p0.push(drop_in_path@));
    }

    /// The entries of `section`, in order.
    pub fn section_entries(&self, section: &str) -> (r: Option<&Vec<(String, String)>>)
        ensures
            match r {
                Some(es) => self@.sections.dom().contains(section@) && self@.sections[section@]
                    == es.deep_view(),
                None => !self@.sections.dom().contains(section@),
            },
    {
        let name = chars_of(section);
        match find_section(&self.sections, &name) {
            None => {
                proof {
                    lemma_sections_map_absent(self.sections@, name@);
                }
                None
            },
            Some(i) => {
                proof {
                    lemma_sections_map_first(self.sections@, name@, i as int);
                }
                Some(&self.sections[i].entries)
            },
        }
    }

    /// The last value of `key` in `section` (systemd semantics: last wins).
    pub fn get(&self, section: &str, key: &str) -> (r: Option<&str>)
        ensures
            match r {
                Some(v) => lookup(self@.sections, section@, key@) == Some(v@),
                None => lookup(self@.sections, section@, key@) is None,
            },
    {
        let name = chars_of(section);
        let k = chars_of(key);
        match find_section(&self.sections, &name) {
            None => {
                proof {
                    lemma_sections_map_absent(self.sections@, name@);
                }
                None
            },
            Some(i) => {
                proof {
                    lemma_sections_map_first(self.sections@, name@, i as int);
                }
                let es = &self.sections[i].entries;
                let mut found: Option<usize> = None;
                let mut j: usize = 0;
                assert(es.deep_view().take(0) =~= Seq::<EntryV>::empty());
                while j < es.len()
                    invariant
                        j <= es.len(),
                        match found {
                            Some(f) => f < j && values_for(es.deep_view().take(j as int), k@).len()
                                > 0 && values_for(es.deep_view().take(j as int), k@).last()
                                == es@[f as int].1@,
                            None => values_for(es.deep_view().take(j as int), k@).len() == 0,
                        },
                    decreases es.len() - j,
                {
                    assert(es.deep_view().take(j + 1).drop_last() =~= es.deep_view().take(j as int));
                    let kj = chars_of(es[j].0.as_str());
                    if vec_eq(&kj, &k) {
                        found = Some(j);
                    }
                    j = j + 1;
                }
                assert(es.deep_view().take(es.len() as int) =~= es.deep_view());
                match found {
                    Some(f) => Some(es[f].1.as_str()),
                    None => None,
                }
            },
        }
    }

    /// All values of `key` in `section`, in order (for multi-value keys such
    /// as `ExecStartPre=`).
    pub fn get_all(&self, section: &str, key: &str) -> (r: Vec<&str>)
        ensures
            r.deep_view() == lookup_all(self@.sections, section@, key@),
    {
        let name = chars_of(section);
        let k = chars_of(key);
        let mut out: Vec<&str> = Vec::new();
        match find_section(&self.sections, &name) {
            None => {
                proof {
                    lemma_sections_map_absent(self.sections@, name@);
                }
                assert(out.deep_view() =~= Seq::<Seq<char>>::empty());
                out
            },
            Some(i) => {
                proof {
                    lemma_sections_map_first(self.sections@, name@, i as int);
                }
                let es = &self.sections[i].entries;
                let mut j: usize = 0;
                assert(es.deep_view().take(0) =~= Seq::<EntryV>::empty());
                assert(out.deep_view() =~= Seq::<Seq<char>>::empty());
                while j < es.len()
                    invariant
                        j <= es.len(),
                        out.deep_view() == values_for(es.deep_view().take(j as int), k@),
                    decreases es.len() - j,
                {
                    assert(es.deep_view().take(j + 1).drop_last() =~= es.deep_view().take(j as int));
                    let kj = chars_of(es[j].0.as_str());
                    let ghost before = out.deep_view();
                    if vec_eq(&kj, &k) {
                        out.push(es[j].1.as_str());
                        assert(out.deep_view() =~= before.push(es@[j as int].1@));
                    }
                    j = j + 1;
                }
                assert(es.deep_view().take(es.len() as int) =~= es.deep_view());
                out
            },
        }
    }
}

/// Reading without warnings never adds a warning.
pub proof fn lemma_quiet_lines_keep_warnings(st: ParseState, ls: Seq<Seq<char>>)
    ensures
        lines_applied(st, ls, false).warnings == st.warnings,
    decreases ls.len(),
{
    if ls.len() > 0 {
        lemma_quiet_lines_keep_warnings(st, ls.drop_last());
    }
}

} // verus!
