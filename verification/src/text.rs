//! Character-level text primitives shared by the unit-file parser, the
//! converter and the generator. Everything here works on `Seq<char>` in
//! specifications and on `Vec<char>` / `String` in executable code.

use vstd::prelude::*;

verus! {

// ---------------------------------------------------------------------
// Character classes
// ---------------------------------------------------------------------

/// The Unicode `White_Space` property, which is what `char::is_whitespace`
/// and `str::trim` use.
pub open spec fn is_ws(c: char) -> bool {
    let u = c as u32;
    ||| 0x9 <= u <= 0xd
    ||| u == 0x20
    ||| u == 0x85
    ||| u == 0xa0
    ||| u == 0x1680
    ||| 0x2000 <= u <= 0x200a
    ||| u == 0x2028
    ||| u == 0x2029
    ||| u == 0x202f
    ||| u == 0x205f
    ||| u == 0x3000
}

pub fn is_ws_char(c: char) -> (r: bool)
    ensures
        r == is_ws(c),
{
    let u = c as u32;
    (0x9 <= u && u <= 0xd) || u == 0x20 || u == 0x85 || u == 0xa0 || u == 0x1680 || (0x2000 <= u
        && u <= 0x200a) || u == 0x2028 || u == 0x2029 || u == 0x202f || u == 0x205f || u == 0x3000
}

/// What a trimming operation strips: whitespace, or one given character.
#[derive(Clone, Copy)]
pub enum CharClass {
    Space,
    Is(char),
}

pub open spec fn in_class(cls: CharClass, c: char) -> bool {
    match cls {
        CharClass::Space => is_ws(c),
        CharClass::Is(d) => c == d,
    }
}

fn in_class_exec(cls: CharClass, c: char) -> (r: bool)
    ensures
        r == in_class(cls, c),
{
    match cls {
        CharClass::Space => is_ws_char(c),
        CharClass::Is(d) => c == d,
    }
}

pub open spec fn is_digit(c: char) -> bool {
    '0' <= c <= '9'
}

pub open spec fn is_ascii_letter(c: char) -> bool {
    ('a' <= c <= 'z') || ('A' <= c <= 'Z')
}

/// The Unicode `Alphabetic` property of a non-ASCII character, as
/// `char::is_alphabetic` decides it.
pub uninterp spec fn alphabetic(c: char) -> bool;

/// The Unicode `Alphabetic` or `Numeric` property of a non-ASCII character,
/// as `char::is_alphanumeric` decides it.
pub uninterp spec fn alphanumeric(c: char) -> bool;

/// `char::is_alphabetic`: on ASCII exactly the letters, elsewhere the
/// Unicode tables.
pub open spec fn is_alphabetic(c: char) -> bool {
    if (c as u32) < 128 {
        is_ascii_letter(c)
    } else {
        alphabetic(c)
    }
}

/// `char::is_alphanumeric`: on ASCII exactly letters and digits, elsewhere
/// the Unicode tables.
pub open spec fn is_alphanumeric(c: char) -> bool {
    if (c as u32) < 128 {
        is_ascii_letter(c) || is_digit(c)
    } else {
        alphanumeric(c)
    }
}

/// Calls `char::is_alphabetic`. On ASCII the contract states the result
/// (exactly the ASCII letters are alphabetic, as the Unicode tables that
/// std follows give it); for other characters it only names the result.
#[verifier::external_body]
pub(crate) fn char_is_alphabetic(c: char) -> (r: bool)
    ensures
        (c as u32) < 128 ==> (r <==> is_ascii_letter(c)),
        (c as u32) >= 128 ==> r == alphabetic(c),
{
    c.is_alphabetic()
}

/// Calls `char::is_alphanumeric`, which std documents as `is_alphabetic() ||
/// is_numeric()`. On ASCII the contract states the result (letters and
/// digits); for other characters it names the result and states that an
/// alphabetic character is alphanumeric.
#[verifier::external_body]
pub(crate) fn char_is_alphanumeric(c: char) -> (r: bool)
    ensures
        (c as u32) < 128 ==> (r <==> (is_ascii_letter(c) || is_digit(c))),
        (c as u32) >= 128 ==> r == alphanumeric(c),
        (c as u32) >= 128 && alphabetic(c) ==> r,
{
    c.is_alphanumeric()
}

// ---------------------------------------------------------------------
// Trimming
// ---------------------------------------------------------------------

pub open spec fn trim_start_c(s: Seq<char>, cls: CharClass) -> Seq<char>
    decreases s.len(),
{
    if s.len() > 0 && in_class(cls, s[0]) {
        trim_start_c(s.drop_first(), cls)
    } else {
        s
    }
}

pub open spec fn trim_end_c(s: Seq<char>, cls: CharClass) -> Seq<char>
    decreases s.len(),
{
    if s.len() > 0 && in_class(cls, s.last()) {
        trim_end_c(s.drop_last(), cls)
    } else {
        s
    }
}

/// `str::trim_matches` for a character class.
pub open spec fn trim_c(s: Seq<char>, cls: CharClass) -> Seq<char> {
    trim_end_c(trim_start_c(s, cls), cls)
}

/// `str::trim`.
pub open spec fn trim(s: Seq<char>) -> Seq<char> {
    trim_c(s, CharClass::Space)
}

/// `str::trim_start`.
pub open spec fn trim_start(s: Seq<char>) -> Seq<char> {
    trim_start_c(s, CharClass::Space)
}

/// `str::trim_end`.
pub open spec fn trim_end(s: Seq<char>) -> Seq<char> {
    trim_end_c(s, CharClass::Space)
}

pub proof fn lemma_trim_start_skip(s: Seq<char>, cls: CharClass, k: int)
    requires
        0 <= k <= s.len(),
        forall|j: int| 0 <= j < k ==> in_class(cls, #[trigger] s[j]),
        k == s.len() || !in_class(cls, s[k]),
    ensures
        trim_start_c(s, cls) == s.skip(k),
    decreases k,
{
    if k == 0 {
        assert(s.skip(0) =~= s);
    } else {
        let t = s.drop_first();
        assert forall|j: int| 0 <= j < k - 1 implies in_class(cls, #[trigger] t[j]) by {
            assert(t[j] == s[j + 1]);
        }
        if k - 1 < t.len() {
            assert(t[k - 1] == s[k]);
        }
        lemma_trim_start_skip(t, cls, k - 1);
        assert(t.skip(k - 1) =~= s.skip(k));
    }
}

pub proof fn lemma_trim_end_take(s: Seq<char>, cls: CharClass, k: int)
    requires
        0 <= k <= s.len(),
        forall|j: int| k <= j < s.len() ==> in_class(cls, #[trigger] s[j]),
        k == 0 || !in_class(cls, s[k - 1]),
    ensures
        trim_end_c(s, cls) == s.take(k),
    decreases s.len() - k,
{
    if k == s.len() {
        assert(s.take(k) =~= s);
    } else {
        let t = s.drop_last();
        assert forall|j: int| k <= j < t.len() implies in_class(cls, #[trigger] t[j]) by {
            assert(t[j] == s[j]);
        }
        if k > 0 {
            assert(t[k - 1] == s[k - 1]);
        }
        assert(in_class(cls, s[s.len() - 1]));
        lemma_trim_end_take(t, cls, k);
        assert(t.take(k) =~= s.take(k));
    }
}

/// What `trim_start_c` leaves is a suffix that starts outside the class.
pub proof fn lemma_trim_start_suffix(s: Seq<char>, cls: CharClass)
    ensures
        trim_start_c(s, cls).len() <= s.len(),
        trim_start_c(s, cls) == s.skip(s.len() - trim_start_c(s, cls).len()),
        trim_start_c(s, cls).len() > 0 ==> !in_class(cls, trim_start_c(s, cls)[0]),
    decreases s.len(),
{
    if s.len() > 0 && in_class(cls, s[0]) {
        let t = s.drop_first();
        lemma_trim_start_suffix(t, cls);
        let n = trim_start_c(t, cls).len();
        assert(t.skip(t.len() - n) =~= s.skip(s.len() - n));
    } else {
        assert(s.skip(0) =~= s);
    }
}

/// What `trim_end_c` leaves is a prefix that ends outside the class.
pub proof fn lemma_trim_end_prefix(s: Seq<char>, cls: CharClass)
    ensures
        trim_end_c(s, cls).len() <= s.len(),
        trim_end_c(s, cls) == s.take(trim_end_c(s, cls).len() as int),
        trim_end_c(s, cls).len() > 0 ==> !in_class(cls, trim_end_c(s, cls).last()),
    decreases s.len(),
{
    if s.len() > 0 && in_class(cls, s.last()) {
        let t = s.drop_last();
        lemma_trim_end_prefix(t, cls);
        let n = trim_end_c(t, cls).len();
        assert(t.take(n as int) =~= s.take(n as int));
    } else {
        assert(s.take(s.len() as int) =~= s);
    }
}

/// Trimming twice trims no more than once, and trimming adds no character.
pub proof fn lemma_trim_twice(s: Seq<char>, c: char)
    ensures
        trim(trim(s)) == trim(s),
        contains_char(trim(s), c) ==> contains_char(s, c),
{
    let u = trim_start(s);
    let t = trim(s);
    lemma_trim_start_suffix(s, CharClass::Space);
    lemma_trim_end_prefix(u, CharClass::Space);
    let off = s.len() - u.len();
    if contains_char(t, c) {
        let j = choose|j: int| 0 <= j < t.len() && t[j] == c;
        assert(t[j] == u[j]);
        assert(u[j] == s[j + off]);
    }
    if t.len() == 0 {
        assert(trim_start(t) == t);
    } else {
        assert(t[0] == u[0]);
        assert(trim_start(t) == t);
        assert(trim_end(t) == t);
    }
}

/// Trims the characters of `cls` from both ends of `s[lo..hi]`, returning the
/// bounds of what remains.
pub fn trim_range(s: &Vec<char>, lo: usize, hi: usize, cls: CharClass) -> (r: (usize, usize))
    requires
        lo <= hi <= s.len(),
    ensures
        lo <= r.0 <= r.1 <= hi,
        s@.subrange(r.0 as int, r.1 as int) == trim_c(s@.subrange(lo as int, hi as int), cls),
{
    let r0 = trim_start_range(s, lo, hi, cls);
    let r1 = trim_end_range(s, r0, hi, cls);
    (r0, r1)
}

/// Start of `trim_start_c(s[lo..hi])` as an index into `s`.
pub fn trim_start_range(s: &Vec<char>, lo: usize, hi: usize, cls: CharClass) -> (r: usize)
    requires
        lo <= hi <= s.len(),
    ensures
        lo <= r <= hi,
        s@.subrange(r as int, hi as int) == trim_start_c(s@.subrange(lo as int, hi as int), cls),
{
    let mut i = lo;
    while i < hi && in_class_exec(cls, s[i])
        invariant
            lo <= i <= hi <= s.len(),
            forall|j: int| lo <= j < i ==> in_class(cls, #[trigger] s@[j]),
        decreases hi - i,
    {
        i = i + 1;
    }
    proof {
        let t = s@.subrange(lo as int, hi as int);
        assert forall|j: int| 0 <= j < i - lo implies in_class(cls, #[trigger] t[j]) by {
            assert(t[j] == s@[lo + j]);
        }
        if i < hi {
            assert(t[i - lo] == s@[i as int]);
        }
        lemma_trim_start_skip(t, cls, i - lo);
        assert(t.skip(i - lo) =~= s@.subrange(i as int, hi as int));
    }
    i
}

/// End of `trim_end_c(s[lo..hi])` as an index into `s`.
pub fn trim_end_range(s: &Vec<char>, lo: usize, hi: usize, cls: CharClass) -> (r: usize)
    requires
        lo <= hi <= s.len(),
    ensures
        lo <= r <= hi,
        s@.subrange(lo as int, r as int) == trim_end_c(s@.subrange(lo as int, hi as int), cls),
{
    let mut j = hi;
    while j > lo && in_class_exec(cls, s[j - 1])
        invariant
            lo <= j <= hi <= s.len(),
            forall|k: int| j <= k < hi ==> in_class(cls, #[trigger] s@[k]),
        decreases j - lo,
    {
        j = j - 1;
    }
    proof {
        let t = s@.subrange(lo as int, hi as int);
        assert forall|k: int| j - lo <= k < t.len() implies in_class(cls, #[trigger] t[k]) by {
            assert(t[k] == s@[lo + k]);
        }
        if j > lo {
            assert(t[j - lo - 1] == s@[j - 1]);
        }
        lemma_trim_end_take(t, cls, j - lo);
        assert(t.take(j - lo) =~= s@.subrange(lo as int, j as int));
    }
    j
}

// ---------------------------------------------------------------------
// Searching
// ---------------------------------------------------------------------

/// Index of the first occurrence of `c` in `s` (`str::find` with a char).
pub open spec fn find_char(s: Seq<char>, c: char) -> Option<int>
    decreases s.len(),
{
    if s.len() == 0 {
        None
    } else if s[0] == c {
        Some(0)
    } else {
        match find_char(s.drop_first(), c) {
            Some(i) => Some(i + 1),
            None => None,
        }
    }
}

pub proof fn lemma_find_char(s: Seq<char>, c: char)
    ensures
        find_char(s, c) matches Some(i) ==> 0 <= i < s.len() && s[i] == c && forall|j: int|
            0 <= j < i ==> s[j] != c,
        find_char(s, c) is None ==> forall|j: int| 0 <= j < s.len() ==> s[j] != c,
    decreases s.len(),
{
    if s.len() > 0 && s[0] != c {
        let t = s.drop_first();
        lemma_find_char(t, c);
        assert forall|j: int| 1 <= j < s.len() implies s[j] == t[j - 1] by {}
    }
}

pub proof fn lemma_find_char_at(s: Seq<char>, c: char, i: int)
    requires
        0 <= i < s.len(),
        s[i] == c,
        forall|j: int| 0 <= j < i ==> s[j] != c,
    ensures
        find_char(s, c) == Some(i),
{
    lemma_find_char(s, c);
    match find_char(s, c) {
        Some(k) => {
            if k < i {
                assert(s[k] != c);
            } else if k > i {
                assert(s[i] != c);
            }
        },
        None => {
            assert(s[i] != c);
        },
    }
}

pub proof fn lemma_find_char_none(s: Seq<char>, c: char)
    requires
        forall|j: int| 0 <= j < s.len() ==> s[j] != c,
    ensures
        find_char(s, c) is None,
{
    lemma_find_char(s, c);
    if let Some(k) = find_char(s, c) {
        assert(s[k] != c);
    }
}

/// First index `k` with `lo <= k < hi` and `s[k] == c`.
pub fn find_in(s: &Vec<char>, lo: usize, hi: usize, c: char) -> (r: Option<usize>)
    requires
        lo <= hi <= s.len(),
    ensures
        r matches Some(k) ==> lo <= k < hi && find_char(s@.subrange(lo as int, hi as int), c)
            == Some(k - lo),
        r is None ==> find_char(s@.subrange(lo as int, hi as int), c) is None,
{
    let mut i = lo;
    while i < hi
        invariant
            lo <= i <= hi <= s.len(),
            forall|j: int| lo <= j < i ==> s@[j] != c,
        decreases hi - i,
    {
        if s[i] == c {
            proof {
                let t = s@.subrange(lo as int, hi as int);
                assert forall|j: int| 0 <= j < i - lo implies t[j] != c by {
                    assert(t[j] == s@[lo + j]);
                }
                lemma_find_char_at(t, c, i - lo);
            }
            return Some(i);
        }
        i = i + 1;
    }
    proof {
        let t = s@.subrange(lo as int, hi as int);
        assert forall|j: int| 0 <= j < t.len() implies t[j] != c by {
            assert(t[j] == s@[lo + j]);
        }
        lemma_find_char_none(t, c);
    }
    None
}

pub open spec fn contains_char(s: Seq<char>, c: char) -> bool {
    exists|i: int| 0 <= i < s.len() && s[i] == c
}

pub fn contains_in(s: &Vec<char>, c: char) -> (r: bool)
    ensures
        r == contains_char(s@, c),
{
    let mut i: usize = 0;
    while i < s.len()
        invariant
            i <= s.len(),
            forall|j: int| 0 <= j < i ==> s@[j] != c,
        decreases s.len() - i,
    {
        if s[i] == c {
            return true;
        }
        i = i + 1;
    }
    false
}

pub open spec fn starts_with_char(s: Seq<char>, c: char) -> bool {
    s.len() > 0 && s[0] == c
}

pub open spec fn ends_with_char(s: Seq<char>, c: char) -> bool {
    s.len() > 0 && s.last() == c
}

/// `str::ends_with` with a string pattern.
pub open spec fn ends_with(s: Seq<char>, suffix: Seq<char>) -> bool {
    s.len() >= suffix.len() && s.skip(s.len() - suffix.len()) == suffix
}

/// `str::starts_with` with a string pattern.
pub open spec fn starts_with(s: Seq<char>, prefix: Seq<char>) -> bool {
    s.len() >= prefix.len() && s.take(prefix.len() as int) == prefix
}

pub fn ends_with_exec(s: &Vec<char>, suffix: &Vec<char>) -> (r: bool)
    ensures
        r == ends_with(s@, suffix@),
{
    if s.len() < suffix.len() {
        return false;
    }
    let off = s.len() - suffix.len();
    let mut i: usize = 0;
    while i < suffix.len()
        invariant
            off + suffix.len() == s.len(),
            i <= suffix.len(),
            forall|j: int| 0 <= j < i ==> s@[off + j] == suffix@[j],
        decreases suffix.len() - i,
    {
        if s[off + i] != suffix[i] {
            proof {
                assert(s@.skip(off as int)[i as int] == s@[off + i]);
            }
            return false;
        }
        i = i + 1;
    }
    assert(s@.skip(off as int) =~= suffix@);
    true
}

pub fn starts_with_exec(s: &Vec<char>, prefix: &Vec<char>) -> (r: bool)
    ensures
        r == starts_with(s@, prefix@),
{
    if s.len() < prefix.len() {
        return false;
    }
    let mut i: usize = 0;
    while i < prefix.len()
        invariant
            prefix.len() <= s.len(),
            i <= prefix.len(),
            forall|j: int| 0 <= j < i ==> s@[j] == prefix@[j],
        decreases prefix.len() - i,
    {
        if s[i] != prefix[i] {
            proof {
                assert(s@.take(prefix.len() as int)[i as int] == s@[i as int]);
            }
            return false;
        }
        i = i + 1;
    }
    assert(s@.take(prefix.len() as int) =~= prefix@);
    true
}

// ---------------------------------------------------------------------
// Lines (`str::lines`)
// ---------------------------------------------------------------------

/// Removes one trailing carriage return.
pub open spec fn strip_cr(s: Seq<char>) -> Seq<char> {
    if ends_with_char(s, '\r') {
        s.drop_last()
    } else {
        s
    }
}

/// `str::lines`: pieces split at `\n`, a `\r` right before the `\n` dropped,
/// and no empty piece after a final `\n`.
pub open spec fn lines(s: Seq<char>) -> Seq<Seq<char>>
    decreases s.len(),
{
    if s.len() == 0 {
        seq![]
    } else {
        match find_char(s, '\n') {
            Some(i) => {
                proof {
                    lemma_find_char(s, '\n');
                }
                seq![strip_cr(s.take(i))] + lines(s.skip(i + 1))
            },
            None => seq![s],
        }
    }
}

/// Copies `s[lo..hi]`.
pub fn slice_of(s: &Vec<char>, lo: usize, hi: usize) -> (r: Vec<char>)
    requires
        lo <= hi <= s.len(),
    ensures
        r@ == s@.subrange(lo as int, hi as int),
{
    let mut r: Vec<char> = Vec::new();
    let mut i = lo;
    while i < hi
        invariant
            lo <= i <= hi <= s.len(),
            r@ == s@.subrange(lo as int, i as int),
        decreases hi - i,
    {
        r.push(s[i]);
        i = i + 1;
        assert(r@ =~= s@.subrange(lo as int, i as int));
    }
    r
}

pub fn split_lines(s: &Vec<char>) -> (r: Vec<Vec<char>>)
    ensures
        r.deep_view() == lines(s@),
{
    let mut out: Vec<Vec<char>> = Vec::new();
    let mut pos: usize = 0;
    assert(out.deep_view() =~= Seq::<Seq<char>>::empty());
    assert(s@.skip(0) =~= s@);
    while pos < s.len()
        invariant
            pos <= s.len(),
            lines(s@) == out.deep_view() + lines(s@.skip(pos as int)),
        decreases s.len() - pos,
    {
        let ghost rest = s@.skip(pos as int);
        assert(rest =~= s@.subrange(pos as int, s.len() as int));
        match find_in(s, pos, s.len(), '\n') {
            Some(k) => {
                let mut end = k;
                if end > pos && s[end - 1] == '\r' {
                    end = end - 1;
                }
                let piece = slice_of(s, pos, end);
                proof {
                    assert(piece@ == strip_cr(rest.take(k - pos))) by {
                        if k > pos && s@[k - 1] == '\r' {
                            assert(rest.take(k - pos).drop_last() =~= piece@);
                        } else {
                            assert(rest.take(k - pos) =~= piece@);
                        }
                    }
                    assert(rest.skip(k - pos + 1) =~= s@.skip(k + 1));
                }
                let ghost before = out.deep_view();
                assert(piece.deep_view() =~= piece@);
                out.push(piece);
                assert(out.deep_view() =~= before.push(piece@));
                pos = k + 1;
                assert(lines(s@) == out.deep_view() + lines(s@.skip(pos as int))) by {
                    assert(before + (seq![piece@] + lines(s@.skip(pos as int))) =~= before.push(
                        piece@,
                    ) + lines(s@.skip(pos as int)));
                }
            },
            None => {
                let piece = slice_of(s, pos, s.len());
                let ghost before = out.deep_view();
                assert(piece.deep_view() =~= piece@);
                out.push(piece);
                assert(out.deep_view() =~= before.push(piece@));
                assert(lines(s@) == out.deep_view()) by {
                    assert(piece@ =~= rest);
                    assert(before + seq![rest] =~= before.push(piece@));
                }
                pos = s.len();
                assert(lines(s@.skip(pos as int)) =~= Seq::<Seq<char>>::empty()) by {
                    assert(s@.skip(pos as int).len() == 0);
                }
                assert(out.deep_view() + Seq::<Seq<char>>::empty() =~= out.deep_view());
            },
        }
    }
    assert(s@.skip(pos as int).len() == 0);
    assert(out.deep_view() + lines(s@.skip(pos as int)) =~= out.deep_view());
    out
}

// ---------------------------------------------------------------------
// Conversions between `str`, `String` and `Vec<char>`
// ---------------------------------------------------------------------

pub fn chars_of(s: &str) -> (r: Vec<char>)
    ensures
        r@ == s@,
{
    let mut v: Vec<char> = Vec::new();
    for c in it: s.chars()
        invariant
            v@ == it.seq().take(it.index() as int),
    {
        v.push(c);
    }
    v
}

/// Calls `String::push`, which appends one character.
#[verifier::external_body]
pub(crate) fn push_char(s: &mut String, c: char)
    ensures
        final(s)@ == old(s)@.push(c),
{
    s.push(c);
}

pub fn string_of(v: &Vec<char>) -> (r: String)
    ensures
        r@ == v@,
{
    let mut s = String::new();
    let mut i: usize = 0;
    while i < v.len()
        invariant
            i <= v.len(),
            s@ == v@.take(i as int),
        decreases v.len() - i,
    {
        push_char(&mut s, v[i]);
        i = i + 1;
        assert(s@ =~= v@.take(i as int));
    }
    assert(v@.take(v.len() as int) =~= v@);
    s
}

pub fn push_all(v: &mut Vec<char>, w: &Vec<char>)
    ensures
        final(v)@ == old(v)@ + w@,
{
    let ghost start = v@;
    let mut i: usize = 0;
    while i < w.len()
        invariant
            i <= w.len(),
            v@ == start + w@.take(i as int),
        decreases w.len() - i,
    {
        v.push(w[i]);
        i = i + 1;
        assert(v@ =~= start + w@.take(i as int));
    }
    assert(w@.take(w.len() as int) =~= w@);
}

pub fn push_str(v: &mut Vec<char>, w: &str)
    ensures
        final(v)@ == old(v)@ + w@,
{
    let c = chars_of(w);
    push_all(v, &c);
}

pub fn vec_eq(a: &Vec<char>, b: &Vec<char>) -> (r: bool)
    ensures
        r == (a@ == b@),
{
    if a.len() != b.len() {
        return false;
    }
    let mut i: usize = 0;
    while i < a.len()
        invariant
            a.len() == b.len(),
            i <= a.len(),
            forall|j: int| 0 <= j < i ==> a@[j] == b@[j],
        decreases a.len() - i,
    {
        if a[i] != b[i] {
            return false;
        }
        i = i + 1;
    }
    assert(a@ =~= b@);
    true
}

pub fn str_eq(a: &str, b: &str) -> (r: bool)
    ensures
        r == (a@ == b@),
{
    let x = chars_of(a);
    let y = chars_of(b);
    vec_eq(&x, &y)
}

// ---------------------------------------------------------------------
// Decimal numerals
// ---------------------------------------------------------------------

pub open spec fn digit_char(d: nat) -> char {
    if d == 0 {
        '0'
    } else if d == 1 {
        '1'
    } else if d == 2 {
        '2'
    } else if d == 3 {
        '3'
    } else if d == 4 {
        '4'
    } else if d == 5 {
        '5'
    } else if d == 6 {
        '6'
    } else if d == 7 {
        '7'
    } else if d == 8 {
        '8'
    } else {
        '9'
    }
}

/// The decimal numeral of `n`, as `format!("{}", n)` writes it.
pub open spec fn decimal(n: nat) -> Seq<char>
    decreases n,
{
    if n < 10 {
        seq![digit_char(n)]
    } else {
        decimal(n / 10).push(digit_char(n % 10))
    }
}

fn digit_exec(d: usize) -> (c: char)
    requires
        d < 10,
    ensures
        c == digit_char(d as nat),
{
    if d == 0 {
        '0'
    } else if d == 1 {
        '1'
    } else if d == 2 {
        '2'
    } else if d == 3 {
        '3'
    } else if d == 4 {
        '4'
    } else if d == 5 {
        '5'
    } else if d == 6 {
        '6'
    } else if d == 7 {
        '7'
    } else if d == 8 {
        '8'
    } else {
        '9'
    }
}

pub fn decimal_of(n: usize) -> (r: Vec<char>)
    ensures
        r@ == decimal(n as nat),
    decreases n,
{
    if n < 10 {
        let mut v: Vec<char> = Vec::new();
        v.push(digit_exec(n));
        assert(v@ =~= seq![digit_char(n as nat)]);
        v
    } else {
        let mut v = decimal_of(n / 10);
        v.push(digit_exec(n % 10));
        v
    }
}

} // verus!
