//! Unix path text: file names, stems, extensions and joining, with the
//! meaning `std::path::Path` gives them.

use vstd::prelude::*;

use crate::text::{ends_with_char, push_all, slice_of, starts_with_char};

verus! {

/// Index of the last occurrence of `c`.
pub open spec fn rfind_char(s: Seq<char>, c: char) -> Option<int>
    decreases s.len(),
{
    if s.len() == 0 {
        None
    } else if s.last() == c {
        Some(s.len() - 1)
    } else {
        rfind_char(s.drop_last(), c)
    }
}

pub proof fn lemma_rfind_char(s: Seq<char>, c: char)
    ensures
        rfind_char(s, c) matches Some(i) ==> 0 <= i < s.len() && s[i] == c && forall|j: int|
            i < j < s.len() ==> s[j] != c,
        rfind_char(s, c) is None ==> forall|j: int| 0 <= j < s.len() ==> s[j] != c,
    decreases s.len(),
{
    if s.len() > 0 && s.last() != c {
        let t = s.drop_last();
        lemma_rfind_char(t, c);
        assert forall|j: int| 0 <= j < t.len() implies t[j] == s[j] by {}
    }
}

proof fn lemma_rfind_char_at(s: Seq<char>, c: char, i: int)
    requires
        0 <= i < s.len(),
        s[i] == c,
        forall|j: int| i < j < s.len() ==> s[j] != c,
    ensures
        rfind_char(s, c) == Some(i),
{
    lemma_rfind_char(s, c);
    match rfind_char(s, c) {
        Some(k) => {
            if k < i {
                assert(s[i] != c);
            } else if k > i {
                assert(s[k] != c);
            }
        },
        None => {
            assert(s[i] != c);
        },
    }
}

proof fn lemma_rfind_char_none(s: Seq<char>, c: char)
    requires
        forall|j: int| 0 <= j < s.len() ==> s[j] != c,
    ensures
        rfind_char(s, c) is None,
{
    lemma_rfind_char(s, c);
    if let Some(k) = rfind_char(s, c) {
        assert(s[k] != c);
    }
}

/// Last index `k < hi` with `s[k] == c`.
pub fn rfind_in(s: &Vec<char>, hi: usize, c: char) -> (r: Option<usize>)
    requires
        hi <= s.len(),
    ensures
        rfind_char(s@.take(hi as int), c) == match r {
            Some(k) => Some(k as int),
            None => None,
        },
        r matches Some(k) ==> k < hi,
{
    let mut j = hi;
    while j > 0
        invariant
            j <= hi <= s.len(),
            forall|k: int| j <= k < hi ==> s@[k] != c,
        decreases j,
    {
        if s[j - 1] == c {
            proof {
                let t = s@.take(hi as int);
                assert forall|k: int| j - 1 < k < t.len() implies t[k] != c by {
                    assert(t[k] == s@[k]);
                }
                lemma_rfind_char_at(t, c, j - 1);
            }
            return Some(j - 1);
        }
        j = j - 1;
    }
    proof {
        let t = s@.take(hi as int);
        assert forall|k: int| 0 <= k < t.len() implies t[k] != c by {
            assert(t[k] == s@[k]);
        }
        lemma_rfind_char_none(t, c);
    }
    None
}

/// Where the last component of `p` starts (after its last `/`).
pub open spec fn segment_start(p: Seq<char>) -> int {
    match rfind_char(p, '/') {
        Some(k) => k + 1,
        None => 0,
    }
}

/// `Path::file_name`: the last component, `None` when the path ends in `..`
/// or has no normal component. Trailing slashes and `.` components are
/// skipped.
pub open spec fn file_name(p: Seq<char>) -> Option<Seq<char>>
    decreases p.len(),
{
    if p.len() == 0 {
        None
    } else if p.last() == '/' {
        file_name(p.drop_last())
    } else {
        let start = segment_start(p);
        let seg = p.skip(start);
        proof {
            lemma_rfind_char(p, '/');
        }
        if seg == "."@ {
            file_name(p.take(start))
        } else if seg == ".."@ {
            None
        } else {
            Some(seg)
        }
    }
}

/// `Path::file_stem` of a file name: the part before the last `.`, or the
/// whole name when it has no `.` other than a leading one.
pub open spec fn stem_of(name: Seq<char>) -> Seq<char> {
    if name == ".."@ {
        name
    } else {
        match rfind_char(name, '.') {
            Some(i) => if i > 0 {
                name.take(i)
            } else {
                name
            },
            None => name,
        }
    }
}

/// `Path::extension` of a file name: the part after the last `.`, if that
/// `.` is not the first character.
pub open spec fn extension_of(name: Seq<char>) -> Option<Seq<char>> {
    if name == ".."@ {
        None
    } else {
        match rfind_char(name, '.') {
            Some(i) => if i > 0 {
                Some(name.skip(i + 1))
            } else {
                None
            },
            None => None,
        }
    }
}

pub open spec fn file_stem(p: Seq<char>) -> Option<Seq<char>> {
    match file_name(p) {
        Some(n) => Some(stem_of(n)),
        None => None,
    }
}

pub open spec fn extension(p: Seq<char>) -> Option<Seq<char>> {
    match file_name(p) {
        Some(n) => extension_of(n),
        None => None,
    }
}

/// `PathBuf::join` on Unix: an absolute component replaces the base,
/// otherwise a `/` is put between them unless the base is empty or already
/// ends in one.
pub open spec fn path_join(base: Seq<char>, comp: Seq<char>) -> Seq<char> {
    if starts_with_char(comp, '/') {
        comp
    } else if base.len() == 0 || ends_with_char(base, '/') {
        base + comp
    } else {
        base + seq!['/'] + comp
    }
}

fn is_dot(s: &Vec<char>, lo: usize, hi: usize) -> (r: bool)
    requires
        lo <= hi <= s.len(),
    ensures
        r == (s@.subrange(lo as int, hi as int) == "."@),
{
    proof {
        reveal_strlit(".");
        assert("."@.len() == 1);
        assert("."@[0] == '.');
    }
    let r = hi - lo == 1 && s[lo] == '.';
    if r {
        assert(s@.subrange(lo as int, hi as int) =~= "."@);
    } else if hi - lo == 1 {
        assert(s@.subrange(lo as int, hi as int)[0] != "."@[0]);
    }
    r
}

fn is_dot_dot(s: &Vec<char>, lo: usize, hi: usize) -> (r: bool)
    requires
        lo <= hi <= s.len(),
    ensures
        r == (s@.subrange(lo as int, hi as int) == ".."@),
{
    proof {
        reveal_strlit("..");
        assert(".."@.len() == 2);
        assert(".."@[0] == '.' && ".."@[1] == '.');
    }
    let r = hi - lo == 2 && s[lo] == '.' && s[lo + 1] == '.';
    if r {
        assert(s@.subrange(lo as int, hi as int) =~= ".."@);
    } else if hi - lo == 2 {
        let ghost t = s@.subrange(lo as int, hi as int);
        assert(t[0] != ".."@[0] || t[1] != ".."@[1]);
    }
    r
}

/// The file name of `p`.
pub fn file_name_of(p: &Vec<char>) -> (r: Option<Vec<char>>)
    ensures
        file_name(p@) == match r {
            Some(v) => Some(v@),
            None => None,
        },
{
    let mut end: usize = p.len();
    assert(p@.take(end as int) =~= p@);
    while end > 0
        invariant
            end <= p.len(),
            file_name(p@) == file_name(p@.take(end as int)),
        decreases end,
    {
        let t = Ghost(p@.take(end as int));
        if p[end - 1] == '/' {
            assert(t@.drop_last() =~= p@.take(end - 1));
            end = end - 1;
        } else {
            let start = match rfind_in(p, end, '/') {
                Some(k) => k + 1,
                None => 0,
            };
            proof {
                lemma_rfind_char(t@, '/');
                assert(t@.skip(start as int) =~= p@.subrange(start as int, end as int));
            }
            if is_dot(p, start, end) {
                assert(t@.take(start as int) =~= p@.take(start as int));
                end = start;
            } else if is_dot_dot(p, start, end) {
                return None;
            } else {
                return Some(slice_of(p, start, end));
            }
        }
    }
    assert(p@.take(0) =~= Seq::<char>::empty());
    None
}

/// The stem of a file name.
pub fn stem_of_exec(name: &Vec<char>) -> (r: Vec<char>)
    ensures
        r@ == stem_of(name@),
{
    assert(name@.take(name.len() as int) =~= name@);
    assert(name@.subrange(0, name.len() as int) =~= name@);
    if is_dot_dot(name, 0, name.len()) {
        return slice_of(name, 0, name.len());
    }
    match rfind_in(name, name.len(), '.') {
        Some(i) => if i > 0 {
            slice_of(name, 0, i)
        } else {
            slice_of(name, 0, name.len())
        },
        None => slice_of(name, 0, name.len()),
    }
}

/// The extension of a file name.
pub fn extension_of_exec(name: &Vec<char>) -> (r: Option<Vec<char>>)
    ensures
        extension_of(name@) == match r {
            Some(v) => Some(v@),
            None => None,
        },
{
    assert(name@.take(name.len() as int) =~= name@);
    assert(name@.subrange(0, name.len() as int) =~= name@);
    if is_dot_dot(name, 0, name.len()) {
        return None;
    }
    match rfind_in(name, name.len(), '.') {
        Some(i) => if i > 0 {
            let e = slice_of(name, i + 1, name.len());
            assert(e@ =~= name@.skip(i + 1));
            Some(e)
        } else {
            None
        },
        None => None,
    }
}

/// `base` joined with `comp`.
pub fn path_join_exec(base: &Vec<char>, comp: &Vec<char>) -> (r: Vec<char>)
    ensures
        r@ == path_join(base@, comp@),
{
    assert(comp@.subrange(0, comp.len() as int) =~= comp@);
    assert(base@.subrange(0, base.len() as int) =~= base@);
    if comp.len() > 0 && comp[0] == '/' {
        return slice_of(comp, 0, comp.len());
    }
    let mut out = slice_of(base, 0, base.len());
    assert(out@ =~= base@);
    if base.len() > 0 && base[base.len() - 1] != '/' {
        out.push('/');
    }
    push_all(&mut out, comp);
    out
}

} // verus!
