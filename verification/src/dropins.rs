//! Which files of a unit's drop-in directory (`<unit>.d/`) are applied, and
//! in which order.

use vstd::prelude::*;

use crate::paths::{extension, extension_of_exec, file_name_of};
use crate::text::{chars_of, vec_eq};

verus! {

/// Strict order of texts by code point, shorter prefix first. For UTF-8
/// text this is the order of the bytes, the order file names sort in.
pub open spec fn text_lt(a: Seq<char>, b: Seq<char>) -> bool
    decreases a.len(),
{
    if b.len() == 0 {
        false
    } else if a.len() == 0 {
        true
    } else if a[0] != b[0] {
        a[0] < b[0]
    } else {
        text_lt(a.drop_first(), b.drop_first())
    }
}

pub proof fn lemma_text_lt_irreflexive(a: Seq<char>)
    ensures
        !text_lt(a, a),
    decreases a.len(),
{
    if a.len() > 0 {
        lemma_text_lt_irreflexive(a.drop_first());
    }
}

pub proof fn lemma_text_lt_total(a: Seq<char>, b: Seq<char>)
    ensures
        a == b || text_lt(a, b) || text_lt(b, a),
    decreases a.len(),
{
    if a.len() > 0 && b.len() > 0 && a[0] == b[0] {
        lemma_text_lt_total(a.drop_first(), b.drop_first());
        if a.drop_first() == b.drop_first() {
            assert(a =~= seq![a[0]] + a.drop_first());
            assert(b =~= seq![b[0]] + b.drop_first());
        }
    } else if a.len() == 0 && b.len() == 0 {
        assert(a =~= b);
    } else if a.len() > 0 && b.len() > 0 {
    }
}

pub proof fn lemma_text_lt_transitive(a: Seq<char>, b: Seq<char>, c: Seq<char>)
    requires
        text_lt(a, b),
        text_lt(b, c),
    ensures
        text_lt(a, c),
    decreases a.len(),
{
    if a.len() > 0 && a[0] == b[0] && b[0] == c[0] {
        lemma_text_lt_transitive(a.drop_first(), b.drop_first(), c.drop_first());
    }
}

/// `i` comes before `j`: its name sorts first, or the names are equal and
/// `i` is the smaller index.
pub open spec fn before(names: Seq<Seq<char>>, i: int, j: int) -> bool {
    text_lt(names[i], names[j]) || (names[i] == names[j] && i < j)
}

/// A drop-in file: one with the extension `conf`.
pub open spec fn is_conf(name: Seq<char>) -> bool {
    extension(name) == Some("conf"@)
}

fn text_less(a: &Vec<char>, b: &Vec<char>) -> (r: bool)
    ensures
        r == text_lt(a@, b@),
{
    let mut i: usize = 0;
    assert(a@.skip(0) =~= a@ && b@.skip(0) =~= b@);
    while i < a.len() && i < b.len() && a[i] == b[i]
        invariant
            i <= a.len(),
            i <= b.len(),
            text_lt(a@, b@) == text_lt(a@.skip(i as int), b@.skip(i as int)),
        decreases a.len() - i,
    {
        assert(a@.skip(i + 1) =~= a@.skip(i as int).drop_first());
        assert(b@.skip(i + 1) =~= b@.skip(i as int).drop_first());
        i = i + 1;
    }
    if i == b.len() {
        false
    } else if i == a.len() {
        true
    } else {
        assert(a@.skip(i as int)[0] == a@[i as int]);
        assert(b@.skip(i as int)[0] == b@[i as int]);
        a[i] < b[i]
    }
}

fn is_conf_exec(name: &Vec<char>) -> (r: bool)
    ensures
        r == is_conf(name@),
{
    let conf = chars_of("conf");
    match file_name_of(name) {
        Some(n) => match extension_of_exec(&n) {
            Some(e) => vec_eq(&e, &conf),
            None => false,
        },
        None => false,
    }
}

/// The order in which the files of a drop-in directory are applied: the
/// indices of the names with the extension `conf`, sorted by name (equal
/// names keep their order).
pub fn drop_in_order(names: &Vec<String>) -> (r: Vec<usize>)
    ensures
        forall|k: int| 0 <= k < r.len() ==> r@[k] < names.len() && is_conf(names@[r@[k] as int]@),
        forall|i: int| 0 <= i < names.len() && is_conf(names@[i]@) ==> r@.contains(i as usize),
        forall|a: int, b: int|
            0 <= a < b < r.len() ==> before(names.deep_view(), r@[a] as int, r@[b] as int),
{
    let ghost ns = names.deep_view();
    let mut r: Vec<usize> = Vec::new();
    let mut i: usize = 0;
    while i < names.len()
        invariant
            i <= names.len(),
            ns == names.deep_view(),
            forall|k: int| 0 <= k < r.len() ==> #[trigger] r@[k] < i,
            forall|k: int| 0 <= k < r.len() ==> is_conf(#[trigger] ns[r@[k] as int]),
            forall|j: int| 0 <= j < i && is_conf(ns[j]) ==> r@.contains(j as usize),
            forall|a: int, b: int|
                0 <= a < b < r.len() ==> before(ns, #[trigger] r@[a] as int, #[trigger] r@[b] as int),
        decreases names.len() - i,
    {
        let n = chars_of(names[i].as_str());
        assert(n@ == ns[i as int]);
        if is_conf_exec(&n) {
            let mut p: usize = 0;
            while p < r.len()
                invariant
                    p <= r.len(),
                    i < names.len(),
                    n@ == ns[i as int],
                    ns == names.deep_view(),
                    forall|k: int| 0 <= k < r.len() ==> #[trigger] r@[k] < i,
                    forall|q: int| 0 <= q < p ==> !text_lt(n@, #[trigger] ns[r@[q] as int]),
                ensures
                    p <= r.len(),
                    forall|q: int| 0 <= q < p ==> !text_lt(n@, #[trigger] ns[r@[q] as int]),
                    p < r.len() ==> text_lt(n@, ns[r@[p as int] as int]),
                decreases r.len() - p,
            {
                let k = r[p];
                assert(k < i);
                let c = chars_of(names[k].as_str());
                assert(c@ == ns[k as int]);
                if text_less(&n, &c) {
                    break;
                }
                p = p + 1;
            }
            let ghost old_r = r@;
            proof {
                assert(p < old_r.len() ==> text_lt(ns[i as int], ns[old_r[p as int] as int]));
            }
            r.insert(p, i);
            proof {
                let x = i as int;
                assert(r@ =~= old_r.insert(p as int, i));
                assert forall|a: int, b: int| 0 <= a < b < r.len() implies before(
                    ns,
                    #[trigger] r@[a] as int,
                    #[trigger] r@[b] as int,
                ) by {
                    if b < p {
                        assert(r@[a] == old_r[a] && r@[b] == old_r[b]);
                    } else if b == p {
                        assert(r@[a] == old_r[a]);
                        let y = old_r[a] as int;
                        assert(!text_lt(ns[x], ns[y]));
                        lemma_text_lt_total(ns[x], ns[y]);
                    } else if a == p {
                        assert(r@[b] == old_r[b - 1]);
                        let y = old_r[b - 1] as int;
                        let z = old_r[p as int] as int;
                        if b - 1 > p {
                            assert(before(ns, z, y));
                            if text_lt(ns[z], ns[y]) {
                                lemma_text_lt_transitive(ns[x], ns[z], ns[y]);
                            }
                        }
                    } else if a < p {
                        assert(r@[a] == old_r[a] && r@[b] == old_r[b - 1]);
                    } else {
                        assert(r@[a] == old_r[a - 1] && r@[b] == old_r[b - 1]);
                    }
                }
                assert forall|j: int| 0 <= j < i + 1 && is_conf(ns[j]) implies r@.contains(
                    j as usize,
                ) by {
                    if j < i {
                        assert(old_r.contains(j as usize));
                        let k = choose|k: int| 0 <= k < old_r.len() && old_r[k] == j as usize;
                        if k < p {
                            assert(r@[k] == old_r[k]);
                        } else {
                            assert(r@[k + 1] == old_r[k]);
                        }
                    } else {
                        assert(r@[p as int] == i);
                    }
                }
            }
        } else {
            proof {
                assert forall|j: int| 0 <= j < i + 1 && is_conf(ns[j]) implies r@.contains(
                    j as usize,
                ) by {
                    if j == i {
                        assert(false);
                    }
                }
            }
        }
        i = i + 1;
    }
    proof {
        assert forall|k: int| 0 <= k < r.len() implies r@[k] < names.len() && is_conf(
            names@[r@[k] as int]@,
        ) by {
            assert(ns[r@[k] as int] == names@[r@[k] as int]@);
        }
        assert forall|i: int| 0 <= i < names.len() && is_conf(names@[i]@) implies r@.contains(
            i as usize,
        ) by {
            assert(ns[i] == names@[i]@);
        }
    }
    r
}

} // verus!
