//! Properties of the reader and the converter that hold for all inputs.

use vstd::prelude::*;

use crate::converter::{
    converted, env_refs, expand_specifiers, replace_pair, resolve_dependency, strip_unit_suffix, specifier_warnings, specifiers_replaced, service_value, strip_specifiers, words, words_acc, join_words, env_token,
    var_inner, is_var_name,
};
use crate::model::{DinitType, RestartPolicy, ResultView};
use crate::parser::{
    apply_line, join_fold, join_step, lines_applied, entries_of, initial_state, is_comment_or_blank, is_header, joined,
    lookup, lookup_all, parse_state, state_ok, values_for, without_key, EntryV, ParseState, SectionsV,
};
use crate::scope::distinct_keys;
use crate::text::{
    contains_char, ends_with_char, find_char, is_ws, lemma_find_char, lemma_find_char_at, lemma_trim_twice, lines, trim, trim_end, trim_start, starts_with_char,
};

verus! {

// ---------------------------------------------------------------------
// Reading units
// ---------------------------------------------------------------------

/// The `Key=Value` entry a (trimmed) line assigns, if it has an `=`.
pub open spec fn entry_of(line: Seq<char>) -> Option<EntryV> {
    match find_char(line, '=') {
        Some(p) => Some((trim(line.take(p)), trim(line.skip(p + 1)))),
        None => None,
    }
}

/// Last wins: the value `get` gives is the last of those `get_all` gives,
/// and there is none exactly when `get_all` gives none.
pub proof fn law_last_value_wins(m: SectionsV, section: Seq<char>, key: Seq<char>)
    ensures
        lookup_all(m, section, key).len() == 0 ==> lookup(m, section, key) is None,
        lookup_all(m, section, key).len() > 0 ==> lookup(m, section, key) == Some(
            lookup_all(m, section, key).last(),
        ),
{
}

proof fn lemma_without_key(es: Seq<EntryV>, key: Seq<char>, other: Seq<char>)
    ensures
        values_for(without_key(es, key), key) == Seq::<Seq<char>>::empty(),
        other != key ==> values_for(without_key(es, key), other) == values_for(es, other),
    decreases es.len(),
{
    if es.len() > 0 {
        lemma_without_key(es.drop_last(), key, other);
        let w = without_key(es.drop_last(), key);
        if es.last().0 != key {
            assert(w.push(es.last()).drop_last() =~= w);
        }
    }
}

/// An empty assignment `Key=` in a section removes every earlier value of
/// that key there and leaves the section's other keys and every other
/// section as they were.
pub proof fn law_empty_value_resets(
    st: ParseState,
    n: nat,
    raw: Seq<char>,
    warn: bool,
    section: Seq<char>,
    key: Seq<char>,
    other_section: Seq<char>,
    other_key: Seq<char>,
)
    requires
        state_ok(st),
        st.current == Some(section),
        !is_comment_or_blank(trim(raw)),
        !is_header(trim(raw)),
        entry_of(trim(raw)) matches Some(e) && e.0 == key && e.1.len() == 0,
    ensures
        ({
            let after = apply_line(st, n, raw, warn).sections;
            &&& lookup_all(after, section, key) == Seq::<Seq<char>>::empty()
            &&& other_key != key ==> lookup_all(after, section, other_key) == lookup_all(
                st.sections,
                section,
                other_key,
            )
            &&& other_section != section ==> lookup_all(after, other_section, other_key)
                == lookup_all(st.sections, other_section, other_key)
            &&& after.dom() == st.sections.dom()
        }),
{
    let es = entries_of(st.sections, section);
    lemma_without_key(es, key, other_key);
    let after = apply_line(st, n, raw, warn).sections;
    assert(after == st.sections.insert(section, without_key(es, key)));
    assert(after.dom() =~= st.sections.dom());
}

/// A non-empty assignment `Key=Value` appends the value: it becomes the
/// key's last value and so the one `get` gives.
pub proof fn law_value_appends(
    st: ParseState,
    n: nat,
    raw: Seq<char>,
    warn: bool,
    section: Seq<char>,
    key: Seq<char>,
    value: Seq<char>,
)
    requires
        state_ok(st),
        st.current == Some(section),
        !is_comment_or_blank(trim(raw)),
        !is_header(trim(raw)),
        entry_of(trim(raw)) == Some((key, value)),
        value.len() > 0,
    ensures
        ({
            let after = apply_line(st, n, raw, warn).sections;
            &&& lookup_all(after, section, key) == lookup_all(st.sections, section, key).push(value)
            &&& lookup(after, section, key) == Some(value)
        }),
{
    let es = entries_of(st.sections, section);
    let after = apply_line(st, n, raw, warn).sections;
    assert(after == st.sections.insert(section, es.push((key, value))));
    assert(es.push((key, value)).drop_last() =~= es);
}

/// Whether line `raw` opens the section `name`.
pub open spec fn opens_section(raw: Seq<char>, name: Seq<char>) -> bool {
    let line = trim(raw);
    !is_comment_or_blank(line) && is_header(line) && line.subrange(1, line.len() - 1) == name
}

proof fn lemma_lines_keep_section(st: ParseState, ls: Seq<Seq<char>>, warn: bool, name: Seq<char>)
    requires
        st.current != Some(name),
        forall|i: int| 0 <= i < ls.len() ==> !opens_section(#[trigger] ls[i], name),
    ensures
        lines_applied(st, ls, warn).current != Some(name),
        entries_of(lines_applied(st, ls, warn).sections, name) == entries_of(st.sections, name),
        lines_applied(st, ls, warn).sections.dom().contains(name) == st.sections.dom().contains(name),
    decreases ls.len(),
{
    if ls.len() > 0 {
        let front = ls.drop_last();
        assert forall|i: int| 0 <= i < front.len() implies !opens_section(#[trigger] front[i], name) by {
            assert(front[i] == ls[i]);
        }
        lemma_lines_keep_section(st, front, warn, name);
        assert(!opens_section(ls[ls.len() - 1], name));
    }
}

/// A drop-in changes only the sections it names: when none of its lines
/// opens `[name]`, merging it leaves that section (and whether it exists)
/// as it was.
pub proof fn law_drop_in_touches_only_named_sections(
    m: SectionsV,
    warnings: Seq<Seq<char>>,
    input: Seq<char>,
    name: Seq<char>,
)
    requires
        forall|i: int|
            0 <= i < lines(joined(input)).len() ==> !opens_section(
                #[trigger] lines(joined(input))[i],
                name,
            ),
    ensures
        ({
            let after = crate::parser::merged_sections(m, warnings, input);
            &&& entries_of(after, name) == entries_of(m, name)
            &&& after.dom().contains(name) == m.dom().contains(name)
        }),
{
    lemma_lines_keep_section(
        ParseState { sections: m, current: None, warnings },
        lines(joined(input)),
        false,
        name,
    );
}

/// The section names that the header lines among `ls` open.
pub open spec fn header_names(ls: Seq<Seq<char>>) -> Set<Seq<char>>
    decreases ls.len(),
{
    if ls.len() == 0 {
        Set::empty()
    } else {
        let rest = header_names(ls.drop_last());
        let line = trim(ls.last());
        if is_header(line) {
            rest.insert(line.subrange(1, line.len() - 1))
        } else {
            rest
        }
    }
}

proof fn lemma_lines_dom(st: ParseState, ls: Seq<Seq<char>>, warn: bool)
    requires
        state_ok(st),
    ensures
        state_ok(lines_applied(st, ls, warn)),
        lines_applied(st, ls, warn).sections.dom() == st.sections.dom().union(header_names(ls)),
    decreases ls.len(),
{
    if ls.len() > 0 {
        lemma_lines_dom(st, ls.drop_last(), warn);
        let s1 = lines_applied(st, ls.drop_last(), warn);
        let after = lines_applied(st, ls, warn);
        assert(after == apply_line(s1, ls.len() as nat, ls.last(), warn));
        let line = trim(ls.last());
        if !is_comment_or_blank(line) && !is_header(line) {
            if let Some(sec) = s1.current {
                if let Some(p) = find_char(line, '=') {
                    let m2 = crate::parser::assign(
                        s1.sections,
                        sec,
                        trim(line.take(p)),
                        trim(line.skip(p + 1)),
                    );
                    assert(m2.dom() =~= s1.sections.dom());
                }
            }
        }
        assert(after.sections.dom() =~= st.sections.dom().union(header_names(ls)));
    }
}

proof fn lemma_header_names_empty(ls: Seq<Seq<char>>)
    ensures
        header_names(ls) == Set::<Seq<char>>::empty() <==> forall|i: int|
            0 <= i < ls.len() ==> !is_header(trim(#[trigger] ls[i])),
    decreases ls.len(),
{
    if ls.len() > 0 {
        let front = ls.drop_last();
        lemma_header_names_empty(front);
        let line = trim(ls.last());
        if is_header(line) {
            assert(header_names(ls).contains(line.subrange(1, line.len() - 1)));
            assert(!is_header(trim(ls[ls.len() - 1])) == false);
        } else {
            assert forall|i: int| 0 <= i < front.len() implies front[i] == ls[i] by {}
            if header_names(front) != Set::<Seq<char>>::empty() {
                let i = choose|i: int| 0 <= i < front.len() && is_header(trim(#[trigger] front[i]));
                assert(ls[i] == front[i]);
            }
        }
    }
}

/// A unit file yields sections exactly when one of its lines, once
/// continuation lines are joined and the line is trimmed, is a `[Name]`
/// header; otherwise [`crate::parser::SystemdUnit::parse`] fails. The
/// sections are exactly those the headers name.
pub proof fn law_sections_come_from_headers(input: Seq<char>)
    ensures
        parse_state(input).sections.dom() == header_names(lines(joined(input))),
        parse_state(input).sections.dom() == Set::<Seq<char>>::empty() <==> forall|i: int|
            0 <= i < lines(joined(input)).len() ==> !is_header(trim(#[trigger] lines(joined(input))[i])),
{
    let ls = lines(joined(input));
    lemma_lines_dom(initial_state(), ls, true);
    assert(Set::<Seq<char>>::empty().union(header_names(ls)) =~= header_names(ls));
    lemma_header_names_empty(ls);
}

/// A stored entry: a non-empty value, key and value trimmed, and no `=` in
/// the key (an empty value is never stored, it only resets the key).
pub open spec fn entry_ok(e: EntryV) -> bool {
    &&& e.1.len() > 0
    &&& trim(e.0) == e.0
    &&& trim(e.1) == e.1
    &&& !contains_char(e.0, '=')
}

pub open spec fn sections_ok(m: SectionsV) -> bool {
    forall|s: Seq<char>, i: int|
        m.dom().contains(s) && 0 <= i < m[s].len() ==> entry_ok(#[trigger] m[s][i])
}

proof fn lemma_without_key_ok(es: Seq<EntryV>, key: Seq<char>)
    requires
        forall|i: int| 0 <= i < es.len() ==> entry_ok(#[trigger] es[i]),
    ensures
        forall|i: int|
            0 <= i < without_key(es, key).len() ==> entry_ok(#[trigger] without_key(es, key)[i]),
    decreases es.len(),
{
    if es.len() > 0 {
        let front = es.drop_last();
        assert forall|i: int| 0 <= i < front.len() implies entry_ok(#[trigger] front[i]) by {
            assert(front[i] == es[i]);
        }
        lemma_without_key_ok(front, key);
        let w = without_key(front, key);
        assert(entry_ok(es[es.len() - 1]));
        if es.last().0 != key {
            assert forall|i: int| 0 <= i < w.push(es.last()).len() implies entry_ok(
                #[trigger] w.push(es.last())[i],
            ) by {
                if i < w.len() {
                    assert(w.push(es.last())[i] == w[i]);
                }
            }
        }
    }
}

proof fn lemma_lines_ok(st: ParseState, ls: Seq<Seq<char>>, warn: bool)
    requires
        sections_ok(st.sections),
    ensures
        sections_ok(lines_applied(st, ls, warn).sections),
    decreases ls.len(),
{
    if ls.len() > 0 {
        lemma_lines_ok(st, ls.drop_last(), warn);
        let s1 = lines_applied(st, ls.drop_last(), warn);
        let m = s1.sections;
        let after = lines_applied(st, ls, warn);
        assert(after == apply_line(s1, ls.len() as nat, ls.last(), warn));
        let line = trim(ls.last());
        if !is_comment_or_blank(line) && !is_header(line) {
            if let Some(sec) = s1.current {
                if let Some(p) = find_char(line, '=') {
                    let k = trim(line.take(p));
                    let v = trim(line.skip(p + 1));
                    let es = entries_of(m, sec);
                    assert forall|i: int| 0 <= i < es.len() implies entry_ok(#[trigger] es[i]) by {
                        assert(m.dom().contains(sec));
                        assert(entry_ok(m[sec][i]));
                    }
                    lemma_trim_twice(line.take(p), '=');
                    lemma_trim_twice(line.skip(p + 1), '=');
                    lemma_find_char(line, '=');
                    if contains_char(line.take(p), '=') {
                        let j = choose|j: int| 0 <= j < line.take(p).len() && line.take(p)[j] == '=';
                        assert(line[j] == '=');
                    }
                    if v.len() == 0 {
                        lemma_without_key_ok(es, k);
                        let w = without_key(es, k);
                        assert forall|s: Seq<char>, i: int|
                            after.sections.dom().contains(s) && 0 <= i < after.sections[s].len()
                            implies entry_ok(#[trigger] after.sections[s][i]) by {
                            if s != sec {
                                assert(after.sections[s] == m[s]);
                            } else {
                                assert(after.sections[s] == w);
                            }
                        }
                    } else {
                        let w = es.push((k, v));
                        assert forall|s: Seq<char>, i: int|
                            after.sections.dom().contains(s) && 0 <= i < after.sections[s].len()
                            implies entry_ok(#[trigger] after.sections[s][i]) by {
                            if s != sec {
                                assert(after.sections[s] == m[s]);
                            } else {
                                assert(after.sections[s] == w);
                                if i < es.len() {
                                    assert(w[i] == es[i]);
                                }
                            }
                        }
                    }
                }
            }
        } else if is_header(line) {
            let name = line.subrange(1, line.len() - 1);
            assert forall|s: Seq<char>, i: int|
                after.sections.dom().contains(s) && 0 <= i < after.sections[s].len()
                implies entry_ok(#[trigger] after.sections[s][i]) by {
                if m.dom().contains(s) {
                    assert(after.sections[s] == m[s]);
                }
            }
        }
    }
}

/// Every entry a unit file stores has a non-empty value, a trimmed key and
/// value, and no `=` in its key; merging a drop-in keeps that so.
pub proof fn law_stored_entries_are_trimmed(
    input: Seq<char>,
    m: SectionsV,
    warnings: Seq<Seq<char>>,
    drop_in: Seq<char>,
)
    ensures
        sections_ok(parse_state(input).sections),
        sections_ok(m) ==> sections_ok(crate::parser::merged_sections(m, warnings, drop_in)),
{
    assert(sections_ok(initial_state().sections));
    lemma_lines_ok(initial_state(), lines(joined(input)), true);
    if sections_ok(m) {
        lemma_lines_ok(ParseState { sections: m, current: None, warnings }, lines(joined(drop_in)), false);
    }
}

/// The lines, each followed by a newline.
pub open spec fn with_newlines(ls: Seq<Seq<char>>) -> Seq<char>
    decreases ls.len(),
{
    if ls.len() == 0 {
        seq![]
    } else {
        with_newlines(ls.drop_last()) + ls.last() + seq!['\n']
    }
}

proof fn lemma_join_fold_plain(ls: Seq<Seq<char>>)
    requires
        forall|i: int| 0 <= i < ls.len() ==> !ends_with_char(#[trigger] ls[i], '\\'),
    ensures
        join_fold(ls) == (with_newlines(ls), Seq::<char>::empty()),
    decreases ls.len(),
{
    if ls.len() > 0 {
        let front = ls.drop_last();
        assert forall|i: int| 0 <= i < front.len() implies !ends_with_char(#[trigger] front[i], '\\') by {
            assert(front[i] == ls[i]);
        }
        lemma_join_fold_plain(front);
        assert(!ends_with_char(ls[ls.len() - 1], '\\'));
    }
}

/// Text in which no line ends with a backslash passes through the joining
/// of continuation lines unchanged, line by line, each line ending in a
/// newline.
pub proof fn law_join_passes_plain_lines(input: Seq<char>)
    requires
        forall|i: int| 0 <= i < lines(input).len() ==> !ends_with_char(#[trigger] lines(input)[i], '\\'),
    ensures
        joined(input) == with_newlines(lines(input)),
{
    lemma_join_fold_plain(lines(input));
}

// ---------------------------------------------------------------------
// A drop-in read as if appended to the unit file
// ---------------------------------------------------------------------

pub proof fn lemma_lines_append(a: Seq<char>, b: Seq<char>)
    requires
        a.len() == 0 || a.last() == '\n',
    ensures
        lines(a + b) == lines(a) + lines(b),
    decreases a.len(),
{
    if a.len() == 0 {
        assert(a + b =~= b);
        assert(lines(a) + lines(b) =~= lines(b));
    } else {
        lemma_find_char(a, '\n');
        let i = match find_char(a, '\n') {
            Some(i) => i,
            None => {
                assert(a[a.len() - 1] == '\n');
                0
            },
        };
        assert(find_char(a, '\n') == Some(i));
        let ab = a + b;
        assert forall|j: int| 0 <= j < i implies ab[j] != '\n' by {
            assert(ab[j] == a[j]);
        }
        lemma_find_char_at(ab, '\n', i);
        assert(ab.take(i) =~= a.take(i));
        let rest = a.skip(i + 1);
        assert(ab.skip(i + 1) =~= rest + b);
        if rest.len() > 0 {
            assert(rest.last() == a.last());
        }
        lemma_lines_append(rest, b);
        assert(lines(ab) =~= lines(a) + lines(b));
    }
}

/// Joining continuation lines from a given state.
pub open spec fn join_from(st: (Seq<char>, Seq<char>), ls: Seq<Seq<char>>) -> (Seq<char>, Seq<char>)
    decreases ls.len(),
{
    if ls.len() == 0 {
        st
    } else {
        join_step(join_from(st, ls.drop_last()), ls.last())
    }
}

proof fn lemma_join_fold_from(ls: Seq<Seq<char>>)
    ensures
        join_fold(ls) == join_from((seq![], seq![]), ls),
    decreases ls.len(),
{
    if ls.len() > 0 {
        lemma_join_fold_from(ls.drop_last());
    }
}

proof fn lemma_join_from_append(st: (Seq<char>, Seq<char>), a: Seq<Seq<char>>, b: Seq<Seq<char>>)
    ensures
        join_from(st, a + b) == join_from(join_from(st, a), b),
    decreases b.len(),
{
    if b.len() == 0 {
        assert(a + b =~= a);
    } else {
        assert((a + b).drop_last() =~= a + b.drop_last());
        assert((a + b).last() == b.last());
        lemma_join_from_append(st, a, b.drop_last());
    }
}

proof fn lemma_join_from_prefix(r: Seq<char>, ls: Seq<Seq<char>>)
    ensures
        join_from((r, seq![]), ls) == (r + join_from((seq![], seq![]), ls).0, join_from(
            (seq![], seq![]),
            ls,
        ).1),
    decreases ls.len(),
{
    if ls.len() == 0 {
        assert(r + Seq::<char>::empty() =~= r);
    } else {
        lemma_join_from_prefix(r, ls.drop_last());
        let x = join_from((seq![], seq![]), ls.drop_last());
        let line = ls.last();
        if ends_with_char(line, '\\') {
        } else if x.1.len() > 0 {
            assert(r + x.0 + x.1 + trim(line) + seq!['\n'] =~= r + (x.0 + x.1 + trim(line) + seq![
                '\n',
            ]));
        } else {
            assert(r + x.0 + line + seq!['\n'] =~= r + (x.0 + line + seq!['\n']));
        }
    }
}

proof fn lemma_join_fold_shape(ls: Seq<Seq<char>>)
    ensures
        join_fold(ls).0.len() == 0 || join_fold(ls).0.last() == '\n',
        ls.len() == 0 || !ends_with_char(ls.last(), '\\') ==> join_fold(ls).1.len() == 0,
    decreases ls.len(),
{
    if ls.len() > 0 {
        lemma_join_fold_shape(ls.drop_last());
    }
}

proof fn lemma_joined_append(a: Seq<char>, b: Seq<char>)
    requires
        a.len() == 0 || a.last() == '\n',
        lines(a).len() == 0 || !ends_with_char(lines(a).last(), '\\'),
    ensures
        joined(a + b) == joined(a) + joined(b),
        joined(a).len() == 0 || joined(a).last() == '\n',
{
    let la = lines(a);
    let lb = lines(b);
    lemma_lines_append(a, b);
    lemma_join_fold_shape(la);
    lemma_join_fold_from(la);
    lemma_join_fold_from(lb);
    lemma_join_fold_from(la + lb);
    lemma_join_from_append((seq![], seq![]), la, lb);
    let ra = join_fold(la).0;
    assert(join_fold(la) == (ra, Seq::<char>::empty()));
    lemma_join_from_prefix(ra, lb);
    let (rb, cb) = join_fold(lb);
    assert(join_fold(la + lb) == (ra + rb, cb));
    assert(joined(a) == ra);
    if cb.len() > 0 {
        assert(joined(a + b) =~= joined(a) + joined(b));
    } else {
        assert(joined(a + b) =~= joined(a) + joined(b));
    }
}

/// The sections and the current section after reading `ls` from the
/// sections `m` with current section `c`.
pub open spec fn reading(m: SectionsV, c: Option<Seq<char>>, ls: Seq<Seq<char>>) -> (
    SectionsV,
    Option<Seq<char>>,
)
    decreases ls.len(),
{
    if ls.len() == 0 {
        (m, c)
    } else {
        let (m1, c1) = reading(m, c, ls.drop_last());
        let st = apply_line(ParseState { sections: m1, current: c1, warnings: seq![] }, 0, ls.last(), false);
        (st.sections, st.current)
    }
}

proof fn lemma_reading(st: ParseState, ls: Seq<Seq<char>>, warn: bool)
    ensures
        (lines_applied(st, ls, warn).sections, lines_applied(st, ls, warn).current) == reading(
            st.sections,
            st.current,
            ls,
        ),
    decreases ls.len(),
{
    if ls.len() > 0 {
        lemma_reading(st, ls.drop_last(), warn);
    }
}

proof fn lemma_reading_append(m: SectionsV, c: Option<Seq<char>>, a: Seq<Seq<char>>, b: Seq<Seq<char>>)
    ensures
        reading(m, c, a + b) == reading(reading(m, c, a).0, reading(m, c, a).1, b),
    decreases b.len(),
{
    if b.len() == 0 {
        assert(a + b =~= a);
    } else {
        assert((a + b).drop_last() =~= a + b.drop_last());
        assert((a + b).last() == b.last());
        lemma_reading_append(m, c, a, b.drop_last());
    }
}

/// Before its first `[Name]` header the text holds only blank and comment
/// lines.
pub open spec fn opens_with_header(ls: Seq<Seq<char>>) -> bool
    decreases ls.len(),
{
    if ls.len() == 0 {
        true
    } else if is_comment_or_blank(trim(ls[0])) {
        opens_with_header(ls.drop_first())
    } else {
        is_header(trim(ls[0]))
    }
}

proof fn lemma_reading_opens(m: SectionsV, c1: Option<Seq<char>>, c2: Option<Seq<char>>, ls: Seq<Seq<char>>)
    requires
        opens_with_header(ls),
    ensures
        reading(m, c1, ls).0 == reading(m, c2, ls).0,
    decreases ls.len(),
{
    if ls.len() > 0 {
        let first = seq![ls[0]];
        let rest = ls.drop_first();
        assert(first + rest =~= ls);
        lemma_reading_append(m, c1, first, rest);
        lemma_reading_append(m, c2, first, rest);
        assert(first.drop_last() =~= Seq::<Seq<char>>::empty());
        assert(first.last() == ls[0]);
        assert(reading(m, c1, first.drop_last()) == (m, c1));
        assert(reading(m, c2, first.drop_last()) == (m, c2));
        if is_comment_or_blank(trim(ls[0])) {
            assert(reading(m, c1, first) == (m, c1));
            assert(reading(m, c2, first) == (m, c2));
            lemma_reading_opens(m, c1, c2, rest);
        } else {
            assert(reading(m, c1, first) == reading(m, c2, first));
        }
    }
}

/// A drop-in is read as if it were appended to the unit file: when the
/// file ends with a newline that no continuation backslash precedes, and
/// the drop-in opens with a section header (after blank and comment
/// lines), merging it gives the sections that parsing the concatenated
/// text gives.
pub proof fn law_drop_in_as_appended(base: Seq<char>, input: Seq<char>, warnings: Seq<Seq<char>>)
    requires
        base.len() == 0 || base.last() == '\n',
        lines(base).len() == 0 || !ends_with_char(lines(base).last(), '\\'),
        opens_with_header(lines(joined(input))),
    ensures
        parse_state(base + input).sections == crate::parser::merged_sections(
            parse_state(base).sections,
            warnings,
            input,
        ),
{
    let ja = joined(base);
    let jb = joined(input);
    lemma_joined_append(base, input);
    lemma_lines_append(ja, jb);
    let la = lines(ja);
    let lb = lines(jb);
    let init = initial_state();
    lemma_reading(init, la + lb, true);
    lemma_reading(init, la, true);
    lemma_reading_append(init.sections, init.current, la, lb);
    let (ma, ca) = reading(init.sections, init.current, la);
    assert(parse_state(base).sections == ma);
    let st = ParseState { sections: ma, current: None, warnings };
    lemma_reading(st, lb, false);
    lemma_reading_opens(ma, ca, None, lb);
}

// ---------------------------------------------------------------------
// Converting units
// ---------------------------------------------------------------------

/// A conversion fails exactly when `[Service]` has no `ExecStart=`.
pub proof fn law_fails_only_without_exec_start(
    u: crate::parser::UnitView,
    c: crate::config::ConfigView,
)
    ensures
        converted(u, c) is Err <==> service_value(u, "ExecStart"@) is None,
{
}

/// How the parts of a conversion fit together: the main service depends on
/// the pre-start service, the post-start service waits for the main one,
/// smooth recovery goes with restarting, and a background process always
/// has a PID file.
pub proof fn law_conversion_links(u: crate::parser::UnitView, c: crate::config::ConfigView)
    ensures
        converted(u, c) matches Ok(r) ==> {
            &&& r.pre_service matches Some(p) ==> r.main_service.depends_on.len() > 0
                && r.main_service.depends_on.last() == p.name
            &&& r.post_service matches Some(q) ==> q.waits_for == seq![r.main_service.name]
            &&& r.main_service.smooth_recovery <==> r.main_service.restart != RestartPolicy::Never
            &&& r.main_service.service_type == DinitType::BgProcess ==> r.main_service.pid_file is Some
            &&& r.env_wrapper_script is None
        },
{
    if let Ok(r) = converted(u, c) {
        let name = crate::converter::service_name(u.source_path);
        if let Some(p) = r.pre_service {
            let d = r.main_service.depends_on;
            assert(d.last() == name + "-pre"@);
        }
    }
}

/// Each unknown specifier letter is reported once.
pub proof fn law_specifier_letters_distinct(s: Seq<char>, out: Seq<char>, seen: Seq<char>)
    requires
        seen.no_duplicates(),
    ensures
        strip_specifiers(s, out, seen).1.no_duplicates(),
    decreases s.len(),
{
    if s.len() > 0 {
        if s[0] == '%' && s.len() >= 2 && crate::text::is_alphabetic(s[1]) {
            let next = if seen.contains(s[1]) {
                seen
            } else {
                seen.push(s[1])
            };
            assert(next.no_duplicates()) by {
                if !seen.contains(s[1]) {
                    assert forall|i: int, j: int|
                        0 <= i < next.len() && 0 <= j < next.len() && i != j implies next[i]
                        != next[j] by {
                        if i == seen.len() as int {
                            assert(next[j] == seen[j]);
                            if seen[j] == s[1] {
                                assert(seen.contains(s[1]));
                            }
                        } else if j == seen.len() as int {
                            assert(next[i] == seen[i]);
                            if seen[i] == s[1] {
                                assert(seen.contains(s[1]));
                            }
                        }
                    }
                }
            }
            law_specifier_letters_distinct(s.skip(2), out, next);
        } else {
            law_specifier_letters_distinct(s.drop_first(), out.push(s[0]), seen);
        }
    }
}

/// Each out-of-scope directive of a section is reported once, however
/// often it is repeated.
pub proof fn law_scope_keys_distinct(es: Seq<EntryV>)
    ensures
        distinct_keys(es).no_duplicates(),
    decreases es.len(),
{
    if es.len() > 0 {
        law_scope_keys_distinct(es.drop_last());
        let d = distinct_keys(es.drop_last());
        if !d.contains(es.last().0) {
            let n = d.push(es.last().0);
            assert forall|i: int, j: int|
                0 <= i < n.len() && 0 <= j < n.len() && i != j implies n[i] != n[j] by {
                let x = es.last().0;
                if i == d.len() as int {
                    assert(n[j] == d[j]);
                    if d[j] == x {
                        assert(d.contains(x));
                    }
                } else if j == d.len() as int {
                    assert(n[i] == d[i]);
                    if d[i] == x {
                        assert(d.contains(x));
                    }
                }
            }
        }
    }
}


// ---------------------------------------------------------------------
// Rewriting `$VAR` references
// ---------------------------------------------------------------------

/// A word as `split_whitespace` yields it: not empty, no whitespace.
pub open spec fn is_word(t: Seq<char>) -> bool {
    t.len() > 0 && forall|i: int| 0 <= i < t.len() ==> !is_ws(#[trigger] t[i])
}

pub open spec fn all_words(ts: Seq<Seq<char>>) -> bool {
    forall|i: int| 0 <= i < ts.len() ==> is_word(#[trigger] ts[i])
}

proof fn lemma_words_acc_word(x: Seq<char>, s: Seq<char>, cur: Seq<char>, acc: Seq<Seq<char>>)
    requires
        forall|i: int| 0 <= i < x.len() ==> !is_ws(#[trigger] x[i]),
    ensures
        words_acc(x + s, cur, acc) == words_acc(s, cur + x, acc),
    decreases x.len(),
{
    if x.len() == 0 {
        assert(x + s =~= s);
        assert(cur + x =~= cur);
    } else {
        let t = x.drop_first();
        assert forall|i: int| 0 <= i < t.len() implies !is_ws(#[trigger] t[i]) by {
            assert(t[i] == x[i + 1]);
        }
        lemma_words_acc_word(t, s, cur.push(x[0]), acc);
        assert((x + s).drop_first() =~= t + s);
        assert((x + s)[0] == x[0]);
        assert(cur.push(x[0]) + t =~= cur + x);
    }
}

proof fn lemma_words_of_join(ts: Seq<Seq<char>>, s: Seq<char>, acc: Seq<Seq<char>>)
    requires
        ts.len() > 0,
        all_words(ts),
    ensures
        words_acc(join_words(ts) + s, seq![], acc) == words_acc(s, ts.last(), acc + ts.drop_last()),
    decreases ts.len(),
{
    let x = ts.last();
    assert(is_word(ts[ts.len() - 1]));
    if ts.len() == 1 {
        lemma_words_acc_word(x, s, seq![], acc);
        assert(Seq::<char>::empty() + x =~= x);
        assert(acc + ts.drop_last() =~= acc);
    } else {
        let front = ts.drop_last();
        assert forall|i: int| 0 <= i < front.len() implies is_word(#[trigger] front[i]) by {
            assert(front[i] == ts[i]);
        }
        let rest = seq![' '] + x + s;
        lemma_words_of_join(front, rest, acc);
        assert(join_words(ts) + s =~= join_words(front) + rest);
        assert(is_word(front[front.len() - 1]));
        // the space closes the previous word
        assert(rest[0] == ' ');
        assert(rest.drop_first() =~= x + s);
        lemma_words_acc_word(x, s, seq![], acc + front.drop_last().push(front.last()));
        assert(Seq::<char>::empty() + x =~= x);
        assert(acc + front.drop_last().push(front.last()) =~= acc + ts.drop_last());
    }
}

/// Splitting words that were joined with single spaces gives them back.
pub proof fn lemma_words_join(ts: Seq<Seq<char>>)
    requires
        all_words(ts),
    ensures
        words(join_words(ts)) == ts,
{
    if ts.len() == 0 {
        assert(join_words(ts) =~= Seq::<char>::empty());
    } else {
        lemma_words_of_join(ts, seq![], seq![]);
        assert(join_words(ts) + Seq::<char>::empty() =~= join_words(ts));
        assert(is_word(ts[ts.len() - 1]));
        assert(Seq::<Seq<char>>::empty() + ts.drop_last() =~= ts.drop_last());
        assert(ts.drop_last().push(ts.last()) =~= ts);
    }
}

proof fn lemma_words_acc_are_words(s: Seq<char>, cur: Seq<char>, acc: Seq<Seq<char>>)
    requires
        all_words(acc),
        forall|i: int| 0 <= i < cur.len() ==> !is_ws(#[trigger] cur[i]),
    ensures
        all_words(words_acc(s, cur, acc)),
    decreases s.len(),
{
    let next_acc = if cur.len() > 0 {
        acc.push(cur)
    } else {
        acc
    };
    assert(all_words(next_acc)) by {
        assert forall|i: int| 0 <= i < next_acc.len() implies is_word(#[trigger] next_acc[i]) by {
            if i < acc.len() {
                assert(next_acc[i] == acc[i]);
            }
        }
    }
    if s.len() > 0 {
        if is_ws(s[0]) {
            lemma_words_acc_are_words(s.drop_first(), seq![], next_acc);
        } else {
            let c2 = cur.push(s[0]);
            assert forall|i: int| 0 <= i < c2.len() implies !is_ws(#[trigger] c2[i]) by {
                if i < cur.len() {
                    assert(c2[i] == cur[i]);
                }
            }
            lemma_words_acc_are_words(s.drop_first(), c2, acc);
        }
    }
}

proof fn lemma_env_token_word(t: Seq<char>)
    requires
        is_word(t),
    ensures
        is_word(env_token(t)),
        env_token(env_token(t)) == env_token(t),
{
    reveal_strlit("$/");
    if starts_with_char(t, '$') && is_var_name(var_inner(t)) {
        let inner = var_inner(t);
        let rest = t.drop_first();
        let u = "$/"@ + inner;
        assert(u[0] == '$' && u[1] == '/');
        assert forall|i: int| 0 <= i < u.len() implies !is_ws(#[trigger] u[i]) by {
            if i >= 2 {
                if starts_with_char(rest, '{') && crate::text::ends_with_char(rest, '}') {
                    assert(u[i] == t[i]);
                } else {
                    assert(u[i] == t[i - 1]);
                }
            }
        }
        // `/` cannot start a variable name, so the rewritten token stays
        assert(var_inner(u) =~= u.drop_first());
        assert(!is_var_name(var_inner(u))) by {
            assert(var_inner(u)[0] == '/');
        }
    }
}

pub proof fn lemma_replace_pair_plain(s: Seq<char>, b: char, rep: Seq<char>)
    requires
        !contains_char(s, '%'),
    ensures
        replace_pair(s, '%', b, rep) == s,
    decreases s.len(),
{
    if s.len() > 0 {
        let t = s.drop_first();
        if contains_char(t, '%') {
            let j = choose|j: int| 0 <= j < t.len() && t[j] == '%';
            assert(s[j + 1] == '%');
        }
        assert(s[0] != '%');
        lemma_replace_pair_plain(t, b, rep);
        assert(seq![s[0]] + t =~= s);
    }
}

pub proof fn lemma_strip_plain(s: Seq<char>, out: Seq<char>, seen: Seq<char>)
    requires
        !contains_char(s, '%'),
    ensures
        strip_specifiers(s, out, seen) == (out + s, seen),
    decreases s.len(),
{
    if s.len() == 0 {
        assert(out + s =~= out);
    } else {
        let t = s.drop_first();
        if contains_char(t, '%') {
            let j = choose|j: int| 0 <= j < t.len() && t[j] == '%';
            assert(s[j + 1] == '%');
        }
        assert(s[0] != '%');
        lemma_strip_plain(t, out.push(s[0]), seen);
        assert(out.push(s[0]) + t =~= out + s);
    }
}

/// A command without `%` keeps its text through the specifier step and
/// gives no warning; one without `$` keeps it through the `$VAR` step.
pub proof fn law_plain_commands_unchanged(cmd: Seq<char>, name: Seq<char>)
    ensures
        !contains_char(cmd, '%') ==> specifiers_replaced(cmd, name) == cmd
            && specifier_warnings(cmd, name) == Seq::<crate::model::WarningView>::empty(),
        !contains_char(cmd, '$') ==> env_refs(cmd) == cmd,
{
    if !contains_char(cmd, '%') {
        lemma_replace_pair_plain(cmd, 'n', name + ".service"@);
        lemma_replace_pair_plain(cmd, 'N', name);
        lemma_strip_plain(cmd, seq![], seq![]);
        assert(Seq::<char>::empty() + cmd =~= cmd);
        assert(specifier_warnings(cmd, name) =~= Seq::<crate::model::WarningView>::empty());
    }
}

/// Rewriting `$VAR` references is idempotent: a command already rewritten
/// comes back unchanged.
pub proof fn law_env_refs_idempotent(cmd: Seq<char>)
    ensures
        env_refs(env_refs(cmd)) == env_refs(cmd),
{
    let r = env_refs(cmd);
    if contains_char(cmd, '$') && contains_char(r, '$') {
        let ws = words(cmd);
        lemma_words_acc_are_words(cmd, seq![], seq![]);
        let ts = ws.map_values(|t: Seq<char>| env_token(t));
        assert forall|i: int| 0 <= i < ts.len() implies is_word(#[trigger] ts[i]) by {
            assert(is_word(ws[i]));
            lemma_env_token_word(ws[i]);
        }
        lemma_words_join(ts);
        assert(words(r) == ts);
        assert forall|i: int| 0 <= i < ts.len() implies #[trigger] env_token(ts[i]) == ts[i] by {
            assert(is_word(ws[i]));
            lemma_env_token_word(ws[i]);
        }
        assert(ts.map_values(|t: Seq<char>| env_token(t)) =~= ts);
    }
}

/// A word of a dependency list resolves as it stands: trimming it changes
/// nothing, so it is looked up in the dependency map and otherwise loses
/// its unit suffix.
pub proof fn law_dependency_words_resolve_as_written(v: Seq<char>, m: Map<Seq<char>, Seq<char>>)
    ensures
        forall|i: int|
            0 <= i < words(v).len() ==> #[trigger] resolve_dependency(words(v)[i], m) == (if m.dom().contains(
                words(v)[i],
            ) {
                m[words(v)[i]]
            } else {
                strip_unit_suffix(words(v)[i])
            }),
{
    lemma_words_acc_are_words(v, seq![], seq![]);
    assert forall|i: int| 0 <= i < words(v).len() implies #[trigger] resolve_dependency(
        words(v)[i],
        m,
    ) == (if m.dom().contains(words(v)[i]) {
        m[words(v)[i]]
    } else {
        strip_unit_suffix(words(v)[i])
    }) by {
        let w = words(v)[i];
        assert(is_word(w));
        assert(!is_ws(w[0]) && !is_ws(w.last()));
        assert(trim_start(w) == w);
        assert(trim_end(w) == w);
    }
}

/// The warnings about unknown specifiers all differ: each names another
/// letter.
pub proof fn law_specifier_warnings_distinct(cmd: Seq<char>, name: Seq<char>)
    ensures
        forall|i: int, j: int|
            0 <= i < j < specifier_warnings(cmd, name).len() ==> (#[trigger] specifier_warnings(
                cmd,
                name,
            )[i]).message != (#[trigger] specifier_warnings(cmd, name)[j]).message,
{
    let letters = strip_specifiers(expand_specifiers(cmd, name), seq![], seq![]).1;
    law_specifier_letters_distinct(expand_specifiers(cmd, name), seq![], seq![]);
    reveal_strlit("unknown specifier %");
    let ws = specifier_warnings(cmd, name);
    assert forall|i: int, j: int| 0 <= i < j < ws.len() implies (#[trigger] ws[i]).message
        != (#[trigger] ws[j]).message by {
        let k = "unknown specifier %"@.len() as int;
        assert(ws[i].message[k] == letters[i]);
        assert(ws[j].message[k] == letters[j]);
    }
}

} // verus!
