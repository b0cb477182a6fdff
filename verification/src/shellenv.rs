//! Shell-format env-files (`/etc/default/*`) and the quoting of values for
//! dinit's env-file format.

use vstd::prelude::*;

use crate::text::{
    is_alphabetic, char_is_alphabetic, char_is_alphanumeric, chars_of, contains_char, contains_in,
    find_char, find_in, is_ws, lemma_find_char, lemma_trim_end_take, lemma_trim_start_skip, lines,
    slice_of, split_lines, starts_with, starts_with_exec, string_of, trim, trim_range, trim_start,
    trim_start_range, CharClass,
};
use crate::converter::{is_var_char, is_var_name};

verus! {

// ---------------------------------------------------------------------
// Double-quoted values
// ---------------------------------------------------------------------

/// What follows a `${`: the text after the closing `}` (nothing when there
/// is none).
pub open spec fn after_brace(t: Seq<char>) -> Seq<char> {
    match find_char(t, '}') {
        Some(i) => t.skip(i + 1),
        None => seq![],
    }
}

/// How many leading characters of `t` can belong to a variable name.
pub open spec fn var_len(t: Seq<char>) -> nat
    decreases t.len(),
{
    if t.len() > 0 && is_var_char(t[0]) {
        1 + var_len(t.drop_first())
    } else {
        0
    }
}

pub proof fn lemma_var_len(t: Seq<char>)
    ensures
        var_len(t) <= t.len(),
        forall|i: int| 0 <= i < var_len(t) ==> is_var_char(#[trigger] t[i]),
        var_len(t) < t.len() ==> !is_var_char(t[var_len(t) as int]),
    decreases t.len(),
{
    if t.len() > 0 && is_var_char(t[0]) {
        lemma_var_len(t.drop_first());
        assert forall|i: int| 0 <= i < var_len(t) implies is_var_char(#[trigger] t[i]) by {
            if i > 0 {
                assert(t[i] == t.drop_first()[i - 1]);
            }
        }
        if var_len(t) < t.len() {
            assert(t[var_len(t) as int] == t.drop_first()[var_len(t) - 1]);
        }
    }
}

pub open spec fn escapable_in_double_quotes(c: char) -> bool {
    c == '"' || c == '\\' || c == '$' || c == '`'
}

/// Reads a double-quoted shell value after its opening quote, appending to
/// `out`: stops at the closing quote; `\` escapes `"`, `\`, `$` and
/// backquote, drops a newline and is kept before anything else; `$VAR` and
/// `${VAR}` are dropped (not expanded); any other `$` is literal.
pub open spec fn dq(s: Seq<char>, out: Seq<char>) -> Seq<char>
    decreases s.len(),
{
    if s.len() == 0 {
        out
    } else if s[0] == '"' {
        out
    } else if s[0] == '\\' {
        if s.len() == 1 {
            out.push('\\')
        } else if escapable_in_double_quotes(s[1]) {
            dq(s.skip(2), out.push(s[1]))
        } else if s[1] == '\n' {
            dq(s.skip(2), out)
        } else {
            dq(s.skip(2), out.push('\\').push(s[1]))
        }
    } else if s[0] == '$' {
        if s.len() >= 2 && (is_alphabetic(s[1]) || s[1] == '_' || s[1] == '{') {
            if s[1] == '{' {
                proof {
                    lemma_find_char(s.skip(2), '}');
                }
                dq(after_brace(s.skip(2)), out)
            } else {
                proof {
                    lemma_var_len(s.drop_first());
                }
                dq(s.skip(1 + var_len(s.drop_first()) as int), out)
            }
        } else {
            dq(s.drop_first(), out.push('$'))
        }
    } else {
        dq(s.drop_first(), out.push(s[0]))
    }
}

/// Parses a double-quoted shell value (the text after the opening quote).
pub fn parse_double_quoted_value(s: &str) -> (r: String)
    ensures
        r@ == dq(s@, seq![]),
{
    let c = chars_of(s);
    let mut out: Vec<char> = Vec::new();
    let mut i: usize = 0;
    assert(c@.skip(0) =~= c@);
    while i < c.len()
        invariant
            i <= c.len(),
            c@ == s@,
            dq(c@, seq![]) == dq(c@.skip(i as int), out@),
        decreases c.len() - i,
    {
        let ghost rest = c@.skip(i as int);
        let ch = c[i];
        assert(rest[0] == ch);
        if ch == '"' {
            return string_of(&out);
        } else if ch == '\\' {
            if i + 1 == c.len() {
                assert(rest.len() == 1);
                out.push('\\');
                return string_of(&out);
            }
            let nx = c[i + 1];
            assert(rest.skip(2) =~= c@.skip(i + 2));
            if nx == '"' || nx == '\\' || nx == '$' || nx == '`' {
                out.push(nx);
            } else if nx == '\n' {
            } else {
                out.push('\\');
                out.push(nx);
            }
            i = i + 2;
        } else if ch == '$' {
            let is_var = i + 1 < c.len() && (char_is_alphabetic(c[i + 1]) || c[i + 1] == '_' || c[i
                + 1] == '{');
            if is_var {
                if c[i + 1] == '{' {
                    match find_in(&c, i + 2, c.len(), '}') {
                        Some(k) => {
                            proof {
                                assert(rest.skip(2) =~= c@.subrange(i + 2, c.len() as int));
                                assert(after_brace(rest.skip(2)) =~= c@.skip(k + 1));
                            }
                            i = k + 1;
                        },
                        None => {
                            proof {
                                assert(rest.skip(2) =~= c@.subrange(i + 2, c.len() as int));
                                assert(c@.skip(c.len() as int) =~= Seq::<char>::empty());
                            }
                            i = c.len();
                        },
                    }
                } else {
                    let mut j = i + 1;
                    while j < c.len() && (char_is_alphanumeric(c[j]) || c[j] == '_')
                        invariant
                            i + 1 <= j <= c.len(),
                            forall|k: int| i + 1 <= k < j ==> is_var_char(#[trigger] c@[k]),
                        decreases c.len() - j,
                    {
                        j = j + 1;
                    }
                    proof {
                        let t = rest.drop_first();
                        assert(t =~= c@.skip(i + 1));
                        lemma_var_len(t);
                        let n = var_len(t);
                        assert forall|k: int| 0 <= k < j - i - 1 implies is_var_char(#[trigger] t[k]) by {
                            assert(t[k] == c@[i + 1 + k]);
                        }
                        if n < j - i - 1 {
                            assert(t[n as int] == c@[i + 1 + n]);
                        }
                        if j - i - 1 < n {
                            assert(t[j - i - 1] == c@[j as int]);
                        }
                        assert(n == j - i - 1);
                        assert(rest.skip(1 + n as int) =~= c@.skip(j as int));
                    }
                    i = j;
                }
            } else {
                out.push('$');
                assert(rest.drop_first() =~= c@.skip(i + 1));
                i = i + 1;
            }
        } else {
            out.push(ch);
            assert(rest.drop_first() =~= c@.skip(i + 1));
            i = i + 1;
        }
    }
    assert(c@.skip(i as int) =~= Seq::<char>::empty());
    string_of(&out)
}

// ---------------------------------------------------------------------
// Shell values and env-files
// ---------------------------------------------------------------------

/// Strips shell quoting from a raw value: single-quoted text is literal up
/// to the closing quote, double-quoted text is read by [`dq`], anything
/// else is kept (trimmed).
pub open spec fn shell_value(raw: Seq<char>) -> Seq<char> {
    let s = trim(raw);
    if s.len() > 0 && s[0] == '\'' {
        match find_char(s.drop_first(), '\'') {
            Some(i) => s.subrange(1, i + 1),
            None => s.drop_first(),
        }
    } else if s.len() > 0 && s[0] == '"' {
        dq(s.drop_first(), seq![])
    } else {
        s
    }
}

/// Strips shell quoting from a raw env-file value.
pub fn parse_shell_value(s: &str) -> (r: String)
    ensures
        r@ == shell_value(s@),
{
    let c = chars_of(s);
    let (a, b) = trim_range(&c, 0, c.len(), CharClass::Space);
    assert(c@.subrange(0, c.len() as int) =~= c@);
    let t = slice_of(&c, a, b);
    if t.len() > 0 && t[0] == '\'' {
        match find_in(&t, 1, t.len(), '\'') {
            Some(k) => {
                assert(t@.subrange(1, t.len() as int) =~= t@.drop_first());
                string_of(&slice_of(&t, 1, k))
            },
            None => {
                assert(t@.subrange(1, t.len() as int) =~= t@.drop_first());
                string_of(&slice_of(&t, 1, t.len()))
            },
        }
    } else if t.len() > 0 && t[0] == '"' {
        let inner = string_of(&slice_of(&t, 1, t.len()));
        assert(inner@ =~= t@.drop_first());
        parse_double_quoted_value(inner.as_str())
    } else {
        string_of(&t)
    }
}

/// The line after an optional leading `export` (and the whitespace after
/// it).
pub open spec fn without_export(line: Seq<char>) -> Seq<char> {
    if starts_with(line, "export"@) {
        trim_start(line.skip(6))
    } else {
        line
    }
}

/// The `KEY=value` pair a line of a shell env-file defines, if any: blank
/// lines, comments, lines without `=` and keys that are not made of
/// alphanumeric characters and `_` define none.
pub open spec fn env_file_entry(raw: Seq<char>) -> Option<(Seq<char>, Seq<char>)> {
    let line = trim(raw);
    if line.len() == 0 || line[0] == '#' {
        None
    } else {
        let l = without_export(line);
        match find_char(l, '=') {
            None => None,
            Some(eq) => {
                let key = trim(l.take(eq));
                if is_var_name(key) {
                    Some((key, shell_value(l.skip(eq + 1))))
                } else {
                    None
                }
            },
        }
    }
}

pub open spec fn env_file_entries(ls: Seq<Seq<char>>) -> Seq<(Seq<char>, Seq<char>)>
    decreases ls.len(),
{
    if ls.len() == 0 {
        seq![]
    } else {
        let prev = env_file_entries(ls.drop_last());
        match env_file_entry(ls.last()) {
            Some(e) => prev.push(e),
            None => prev,
        }
    }
}

fn env_file_entry_exec(raw: &Vec<char>) -> (r: Option<(String, String)>)
    ensures
        match r {
            Some(e) => env_file_entry(raw@) == Some((e.0@, e.1@)),
            None => env_file_entry(raw@) is None,
        },
{
    let (a, b) = trim_range(raw, 0, raw.len(), CharClass::Space);
    assert(raw@.subrange(0, raw.len() as int) =~= raw@);
    let line = slice_of(raw, a, b);
    if line.len() == 0 || line[0] == '#' {
        return None;
    }
    let exp = chars_of("export");
    proof {
        reveal_strlit("export");
    }
    let l = if starts_with_exec(&line, &exp) {
        let s = trim_start_range(&line, 6, line.len(), CharClass::Space);
        assert(line@.subrange(6, line.len() as int) =~= line@.skip(6));
        slice_of(&line, s, line.len())
    } else {
        slice_of(&line, 0, line.len())
    };
    assert(line@.subrange(0, line.len() as int) =~= line@);
    assert(l@.subrange(0, l.len() as int) =~= l@);
    match find_in(&l, 0, l.len(), '=') {
        None => None,
        Some(eq) => {
            let (ka, kb) = trim_range(&l, 0, eq, CharClass::Space);
            assert(l@.subrange(0, eq as int) =~= l@.take(eq as int));
            if crate::converter::is_var_name_range(&l, ka, kb) {
                let key = string_of(&slice_of(&l, ka, kb));
                let rest = string_of(&slice_of(&l, eq + 1, l.len()));
                assert(rest@ =~= l@.skip(eq + 1));
                let value = parse_shell_value(rest.as_str());
                Some((key, value))
            } else {
                None
            }
        },
    }
}

/// Parses a shell-format env-file into `KEY=value` pairs with quoting
/// removed.
pub fn parse_shell_env_file(content: &str) -> (r: Vec<(String, String)>)
    ensures
        r.deep_view() == env_file_entries(lines(content@)),
{
    let c = chars_of(content);
    let ls = split_lines(&c);
    let mut out: Vec<(String, String)> = Vec::new();
    let mut i: usize = 0;
    assert(ls.deep_view().take(0) =~= Seq::<Seq<char>>::empty());
    assert(out.deep_view() =~= Seq::<(Seq<char>, Seq<char>)>::empty());
    while i < ls.len()
        invariant
            i <= ls.len(),
            ls.deep_view() == lines(content@),
            out.deep_view() == env_file_entries(ls.deep_view().take(i as int)),
        decreases ls.len() - i,
    {
        assert(ls.deep_view().take(i + 1).drop_last() =~= ls.deep_view().take(i as int));
        assert(ls.deep_view()[i as int] =~= ls@[i as int]@);
        let ghost before = out.deep_view();
        match env_file_entry_exec(&ls[i]) {
            Some(e) => {
                let ghost ev = (e.0@, e.1@);
                out.push(e);
                assert(out.deep_view() =~= before.push(ev));
            },
            None => {},
        }
        i = i + 1;
    }
    assert(ls.deep_view().take(ls.len() as int) =~= ls.deep_view());
    out
}

// ---------------------------------------------------------------------
// Quoting for dinit env-files
// ---------------------------------------------------------------------

/// A value escaped for double quotes: `\` and `"` get a backslash, and so
/// does `$` when `dollar` holds.
pub open spec fn escaped(v: Seq<char>, dollar: bool) -> Seq<char>
    decreases v.len(),
{
    if v.len() == 0 {
        seq![]
    } else {
        let c = v[0];
        (if c == '\\' || c == '"' || (dollar && c == '$') {
            seq!['\\', c]
        } else {
            seq![c]
        }) + escaped(v.drop_first(), dollar)
    }
}

/// A value quoted for a dinit env-file: single quotes when it holds no `'`;
/// otherwise double quotes with `\` and `"` escaped, and `$` escaped too
/// when present.
pub open spec fn dinit_quoted(v: Seq<char>) -> Seq<char> {
    if !contains_char(v, '\'') {
        seq!['\''] + v + seq!['\'']
    } else {
        seq!['"'] + escaped(v, contains_char(v, '$')) + seq!['"']
    }
}

fn escaped_exec(v: &Vec<char>, dollar: bool) -> (r: Vec<char>)
    ensures
        r@ == escaped(v@, dollar),
{
    let mut out: Vec<char> = Vec::new();
    let mut i: usize = v.len();
    let mut tail: Vec<char> = Vec::new();
    // built back to front so that each step matches the definition
    assert(v@.skip(i as int) =~= Seq::<char>::empty());
    while i > 0
        invariant
            i <= v.len(),
            tail@ == escaped(v@.skip(i as int), dollar),
        decreases i,
    {
        let c = v[i - 1];
        let mut piece: Vec<char> = Vec::new();
        if c == '\\' || c == '"' || (dollar && c == '$') {
            piece.push('\\');
        }
        piece.push(c);
        crate::text::push_all(&mut piece, &tail);
        assert(v@.skip(i - 1).drop_first() =~= v@.skip(i as int));
        assert(v@.skip(i - 1)[0] == c);
        if c == '\\' || c == '"' || (dollar && c == '$') {
            assert(piece@ =~= seq!['\\', c] + tail@);
        } else {
            assert(piece@ =~= seq![c] + tail@);
        }
        tail = piece;
        i = i - 1;
    }
    assert(v@.skip(0) =~= v@);
    crate::text::push_all(&mut out, &tail);
    assert(out@ =~= tail@);
    out
}

/// Quotes a value for a dinit env-file.
pub fn dinit_quote_value(value: &str) -> (r: String)
    ensures
        r@ == dinit_quoted(value@),
{
    let v = chars_of(value);
    let has_sq = contains_in(&v, '\'');
    let has_dollar = contains_in(&v, '$');
    let mut out: Vec<char> = Vec::new();
    if !has_sq {
        out.push('\'');
        crate::text::push_all(&mut out, &v);
        out.push('\'');
        assert(out@ =~= seq!['\''] + v@ + seq!['\'']);
    } else {
        out.push('"');
        let e = escaped_exec(&v, has_dollar);
        crate::text::push_all(&mut out, &e);
        out.push('"');
        assert(out@ =~= seq!['"'] + e@ + seq!['"']);
    }
    string_of(&out)
}

// ---------------------------------------------------------------------
// Round trip
// ---------------------------------------------------------------------

proof fn lemma_dq_escaped(v: Seq<char>, rest: Seq<char>, out: Seq<char>, dollar: bool)
    requires
        dollar || !contains_char(v, '$'),
    ensures
        dq(escaped(v, dollar) + rest, out) == dq(rest, out + v),
    decreases v.len(),
{
    if v.len() == 0 {
        assert(escaped(v, dollar) + rest =~= rest);
        assert(out + v =~= out);
    } else {
        let c = v[0];
        let t = v.drop_first();
        if !dollar {
            assert forall|j: int| 0 <= j < t.len() implies t[j] != '$' by {
                assert(t[j] == v[j + 1]);
            }
        }
        lemma_dq_escaped(t, rest, out.push(c), dollar);
        assert(out.push(c) + t =~= out + v);
        let s = escaped(v, dollar) + rest;
        if c == '\\' || c == '"' || (dollar && c == '$') {
            assert(s =~= seq!['\\', c] + (escaped(t, dollar) + rest));
            assert(s.skip(2) =~= escaped(t, dollar) + rest);
            assert(s[0] == '\\' && s[1] == c);
        } else {
            assert(c != '$') by {
                if !dollar {
                    assert(v[0] != '$');
                }
            }
            assert(s =~= seq![c] + (escaped(t, dollar) + rest));
            assert(s.drop_first() =~= escaped(t, dollar) + rest);
        }
    }
}

proof fn lemma_trim_quoted(q: Seq<char>)
    requires
        q.len() >= 2,
        !is_ws(q[0]),
        !is_ws(q.last()),
    ensures
        trim(q) == q,
{
    lemma_trim_start_skip(q, CharClass::Space, 0);
    assert(q.skip(0) =~= q);
    lemma_trim_end_take(q, CharClass::Space, q.len() as int);
    assert(q.take(q.len() as int) =~= q);
}

/// Reading back a value quoted for dinit with the shell rules gives the
/// value itself: [`parse_shell_value`] undoes [`dinit_quote_value`].
pub proof fn law_quote_round_trip(v: Seq<char>)
    ensures
        shell_value(dinit_quoted(v)) == v,
{
    let q = dinit_quoted(v);
    if !contains_char(v, '\'') {
        assert(q[0] == '\'' && q.last() == '\'');
        lemma_trim_quoted(q);
        let t = q.drop_first();
        assert(t =~= v + seq!['\'']);
        assert forall|j: int| 0 <= j < v.len() implies t[j] != '\'' by {
            assert(t[j] == v[j]);
        }
        crate::text::lemma_find_char_at(t, '\'', v.len() as int);
        assert(q.subrange(1, v.len() + 1 as int) =~= v);
    } else {
        let d = contains_char(v, '$');
        assert(q[0] == '"' && q.last() == '"');
        lemma_trim_quoted(q);
        assert(q.drop_first() =~= escaped(v, d) + seq!['"']);
        lemma_dq_escaped(v, seq!['"'], seq![], d);
        assert(Seq::<char>::empty() + v =~= v);
    }
}

} // verus!
