//! Converter settings: where files go, which units to leave alone, and how
//! systemd dependency names map to dinit service names.

use vstd::prelude::*;

use crate::paths::{path_join, path_join_exec};
use crate::text::{chars_of, starts_with, starts_with_exec, string_of, vec_eq};

verus! {

/// A map from systemd dependency names to dinit service names.
#[derive(Debug, Clone)]
pub struct DependencyMap {
    entries: Vec<(String, String)>,
}

/// The map that a sequence of pairs stands for; the first pair of a key
/// wins.
pub open spec fn pairs_map(s: Seq<(String, String)>) -> Map<Seq<char>, Seq<char>>
    decreases s.len(),
{
    if s.len() == 0 {
        Map::empty()
    } else {
        pairs_map(s.drop_first()).insert(s[0].0@, s[0].1@)
    }
}

proof fn lemma_pairs_first(s: Seq<(String, String)>, k: Seq<char>, i: int)
    requires
        0 <= i < s.len(),
        s[i].0@ == k,
        forall|j: int| 0 <= j < i ==> s[j].0@ != k,
    ensures
        pairs_map(s).dom().contains(k),
        pairs_map(s)[k] == s[i].1@,
    decreases i,
{
    if i > 0 {
        let t = s.drop_first();
        assert forall|j: int| 0 <= j < i - 1 implies (#[trigger] t[j]).0@ != k by {
            assert(t[j] == s[j + 1]);
        }
        lemma_pairs_first(t, k, i - 1);
    }
}

proof fn lemma_pairs_absent(s: Seq<(String, String)>, k: Seq<char>)
    requires
        forall|j: int| 0 <= j < s.len() ==> s[j].0@ != k,
    ensures
        !pairs_map(s).dom().contains(k),
    decreases s.len(),
{
    if s.len() > 0 {
        let t = s.drop_first();
        assert forall|j: int| 0 <= j < t.len() implies (#[trigger] t[j]).0@ != k by {
            assert(t[j] == s[j + 1]);
        }
        lemma_pairs_absent(t, k);
    }
}

proof fn lemma_pairs_update(s: Seq<(String, String)>, i: int, x: (String, String))
    requires
        0 <= i < s.len(),
        x.0@ == s[i].0@,
        forall|j: int| 0 <= j < i ==> s[j].0@ != s[i].0@,
    ensures
        pairs_map(s.update(i, x)) == pairs_map(s).insert(x.0@, x.1@),
    decreases i,
{
    let u = s.update(i, x);
    if i == 0 {
        assert(u.drop_first() =~= s.drop_first());
        assert(pairs_map(u) =~= pairs_map(s).insert(x.0@, x.1@));
    } else {
        let t = s.drop_first();
        assert forall|j: int| 0 <= j < i - 1 implies (#[trigger] t[j]).0@ != t[i - 1].0@ by {
            assert(t[j] == s[j + 1]);
        }
        lemma_pairs_update(t, i - 1, x);
        assert(u.drop_first() =~= t.update(i - 1, x));
        assert(u[0] == s[0]);
        let a = pairs_map(t);
        assert(pairs_map(u) == pairs_map(t.update(i - 1, x)).insert(s[0].0@, s[0].1@));
        assert(pairs_map(s) == a.insert(s[0].0@, s[0].1@));
        assert(a.insert(x.0@, x.1@).insert(s[0].0@, s[0].1@) =~= a.insert(s[0].0@, s[0].1@).insert(
            x.0@,
            x.1@,
        ));
    }
}

proof fn lemma_pairs_push(s: Seq<(String, String)>, x: (String, String))
    requires
        !pairs_map(s).dom().contains(x.0@),
    ensures
        pairs_map(s.push(x)) == pairs_map(s).insert(x.0@, x.1@),
    decreases s.len(),
{
    let u = s.push(x);
    if s.len() == 0 {
        assert(u.drop_first() =~= Seq::<(String, String)>::empty());
        assert(u[0] == x);
        assert(pairs_map(u.drop_first()) == Map::<Seq<char>, Seq<char>>::empty());
        assert(pairs_map(u) =~= pairs_map(s).insert(x.0@, x.1@));
    } else {
        let t = s.drop_first();
        assert(u.drop_first() =~= t.push(x));
        if pairs_map(t).dom().contains(x.0@) {
            assert(pairs_map(s).dom().contains(x.0@));
        }
        lemma_pairs_push(t, x);
        assert(u[0] == s[0]);
        let a = pairs_map(t);
        assert(pairs_map(u) == pairs_map(t.push(x)).insert(s[0].0@, s[0].1@));
        assert(pairs_map(s) == a.insert(s[0].0@, s[0].1@));
        assert(a.insert(x.0@, x.1@).insert(s[0].0@, s[0].1@) =~= a.insert(s[0].0@, s[0].1@).insert(
            x.0@,
            x.1@,
        ));
    }
}

impl View for DependencyMap {
    type V = Map<Seq<char>, Seq<char>>;

    closed spec fn view(&self) -> Map<Seq<char>, Seq<char>> {
        pairs_map(self.entries@)
    }
}

impl DependencyMap {
    /// An empty map.
    pub fn new() -> (r: DependencyMap)
        ensures
            r@ == Map::<Seq<char>, Seq<char>>::empty(),
    {
        DependencyMap { entries: Vec::new() }
    }

    fn position(&self, key: &str) -> (r: Option<usize>)
        ensures
            r matches Some(i) ==> i < self.entries.len() && self.entries@[i as int].0@ == key@
                && forall|j: int| 0 <= j < i ==> self.entries@[j].0@ != key@,
            r is None ==> forall|j: int|
                0 <= j < self.entries.len() ==> self.entries@[j].0@ != key@,
    {
        let k = chars_of(key);
        let mut i: usize = 0;
        while i < self.entries.len()
            invariant
                i <= self.entries.len(),
                k@ == key@,
                forall|j: int| 0 <= j < i ==> self.entries@[j].0@ != key@,
            decreases self.entries.len() - i,
        {
            let entry = &self.entries[i];
            let e = chars_of(entry.0.as_str());
            if vec_eq(&e, &k) {
                return Some(i);
            }
            i = i + 1;
        }
        None
    }

    /// The dinit name `key` maps to.
    pub fn get(&self, key: &str) -> (r: Option<&String>)
        ensures
            match r {
                Some(v) => self@.dom().contains(key@) && self@[key@] == v@,
                None => !self@.dom().contains(key@),
            },
    {
        match self.position(key) {
            Some(i) => {
                proof {
                    lemma_pairs_first(self.entries@, key@, i as int);
                }
                Some(&self.entries[i].1)
            },
            None => {
                proof {
                    lemma_pairs_absent(self.entries@, key@);
                }
                None
            },
        }
    }

    /// Whether `key` has a mapping.
    pub fn contains_key(&self, key: &str) -> (r: bool)
        ensures
            r == self@.dom().contains(key@),
    {
        self.get(key).is_some()
    }

    /// Maps `key` to `value`, returning the value it replaces.
    pub fn insert(&mut self, key: String, value: String) -> (r: Option<String>)
        ensures
            final(self)@ == old(self)@.insert(key@, value@),
            match r {
                Some(v) => old(self)@.dom().contains(key@) && old(self)@[key@] == v@,
                None => !old(self)@.dom().contains(key@),
            },
    {
        let ghost s0 = self.entries@;
        match self.position(key.as_str()) {
            Some(i) => {
                proof {
                    lemma_pairs_first(s0, key@, i as int);
                }
                let old_entry = self.entries.remove(i);
                let ghost x = (key, value);
                proof {
                    lemma_pairs_update(s0, i as int, (key, value));
                }
                self.entries.insert(i, (key, value));
                assert(self.entries@ =~= s0.update(i as int, x));
                Some(old_entry.1)
            },
            None => {
                proof {
                    lemma_pairs_absent(s0, key@);
                    lemma_pairs_push(s0, (key, value));
                }
                self.entries.push((key, value));
                None
            },
        }
    }

    /// The pairs of the map, each key once.
    pub fn to_pairs(&self) -> (r: Vec<(String, String)>)
        ensures
            forall|i: int|
                0 <= i < r.len() ==> self@.dom().contains(#[trigger] r@[i].0@) && self@[r@[i].0@]
                    == r@[i].1@,
            forall|k: Seq<char>|
                #![trigger self@.dom().contains(k)]
                self@.dom().contains(k) ==> exists|i: int| 0 <= i < r.len() && r@[i].0@ == k,
            forall|i: int, j: int| 0 <= i < j < r.len() ==> r@[i].0@ != r@[j].0@,
    {
        let ghost es = self.entries@;
        let mut out: Vec<(String, String)> = Vec::new();
        let ghost mut idx: Seq<int> = seq![];
        let mut i: usize = 0;
        while i < self.entries.len()
            invariant
                i <= self.entries.len(),
                es == self.entries@,
                idx.len() == out.len(),
                forall|t: int|
                    0 <= t < out.len() ==> 0 <= #[trigger] idx[t] < i && is_first(es, idx[t])
                        && out@[t].0@ == es[idx[t]].0@ && out@[t].1@ == es[idx[t]].1@,
                forall|a: int, b: int| 0 <= a < b < idx.len() ==> idx[a] < idx[b],
                forall|j: int|
                    0 <= j < i && is_first(es, j) ==> exists|t: int|
                        0 <= t < idx.len() && #[trigger] idx[t] == j,
            decreases self.entries.len() - i,
        {
            let ghost idx0 = idx;
            let key = self.entries[i].0.clone();
            let value = self.entries[i].1.clone();
            let first = match self.position(key.as_str()) {
                Some(p) => p == i,
                None => false,
            };
            if first {
                proof {
                    assert(is_first(es, i as int));
                    assert(idx.push(i as int)[idx.len() as int] == i);
                }
                out.push((key, value));
                proof {
                    idx = idx.push(i as int);
                }
            } else {
                proof {
                    assert(!is_first(es, i as int));
                }
            }
            proof {
                assert forall|j: int| 0 <= j < i + 1 && is_first(es, j) implies exists|t: int|
                    0 <= t < idx.len() && #[trigger] idx[t] == j by {
                    if j < i {
                        let t = choose|t: int| 0 <= t < idx0.len() && #[trigger] idx0[t] == j;
                        assert(idx[t] == idx0[t]);
                    } else {
                        assert(idx[idx.len() - 1] == j);
                    }
                }
            }
            i = i + 1;
        }
        proof {
            assert forall|t: int| 0 <= t < out.len() implies self@.dom().contains(
                #[trigger] out@[t].0@,
            ) && self@[out@[t].0@] == out@[t].1@ by {
                lemma_pairs_first(es, es[idx[t]].0@, idx[t]);
            }
            assert forall|k: Seq<char>| #[trigger] self@.dom().contains(k) implies exists|t: int|
                0 <= t < out.len() && out@[t].0@ == k by {
                let j = lemma_pairs_dom(es, k);
                let t = choose|t: int| 0 <= t < idx.len() && #[trigger] idx[t] == j;
                assert(out@[t].0@ == k);
            }
            assert forall|a: int, b: int| 0 <= a < b < out.len() implies out@[a].0@ != out@[b].0@ by {
                assert(idx[a] < idx[b]);
                assert(is_first(es, idx[b]));
            }
        }
        out
    }
}

/// `j` is the first index holding its key.
pub open spec fn is_first(s: Seq<(String, String)>, j: int) -> bool {
    0 <= j < s.len() && forall|i: int| 0 <= i < j ==> s[i].0@ != s[j].0@
}

proof fn lemma_pairs_dom(s: Seq<(String, String)>, k: Seq<char>) -> (j: int)
    requires
        pairs_map(s).dom().contains(k),
    ensures
        is_first(s, j),
        s[j].0@ == k,
    decreases s.len(),
{
    if s[0].0@ == k {
        0
    } else {
        let t = s.drop_first();
        let j = lemma_pairs_dom(t, k);
        assert(s[j + 1] == t[j]);
        assert forall|i: int| 0 <= i < j + 1 implies (#[trigger] s[i]).0@ != s[j + 1].0@ by {
            if i > 0 {
                assert(s[i] == t[i - 1]);
            }
        }
        j + 1
    }
}

/// The built-in dependency mappings.
pub open spec fn builtin_dependencies() -> Map<Seq<char>, Seq<char>> {
    Map::empty().insert("network-online.target"@, "network"@).insert(
        "network.target"@,
        "network"@,
    ).insert("multi-user.target"@, "boot"@).insert("sysinit.target"@, "boot"@).insert(
        "default.target"@,
        "boot"@,
    )
}

proof fn lemma_builtin_keys_distinct()
    ensures
        "network-online.target"@ != "network.target"@,
        "network-online.target"@ != "multi-user.target"@,
        "network-online.target"@ != "sysinit.target"@,
        "network-online.target"@ != "default.target"@,
        "network.target"@ != "multi-user.target"@,
        "network.target"@ != "sysinit.target"@,
        "network.target"@ != "default.target"@,
        "multi-user.target"@ != "sysinit.target"@,
        "multi-user.target"@ != "default.target"@,
        "sysinit.target"@ != "default.target"@,
{
    reveal_strlit("network-online.target");
    reveal_strlit("network.target");
    reveal_strlit("multi-user.target");
    reveal_strlit("sysinit.target");
    reveal_strlit("default.target");
    assert("network-online.target"@.len() != "network.target"@.len());
    assert("network-online.target"@.len() != "multi-user.target"@.len());
    assert("network-online.target"@.len() != "sysinit.target"@.len());
    assert("network-online.target"@.len() != "default.target"@.len());
    assert("network.target"@.len() != "multi-user.target"@.len());
    assert("network.target"@[0] != "sysinit.target"@[0]);
    assert("network.target"@[0] != "default.target"@[0]);
    assert("multi-user.target"@.len() != "sysinit.target"@.len());
    assert("multi-user.target"@.len() != "default.target"@.len());
    assert("sysinit.target"@[0] != "default.target"@[0]);
}

/// Converter settings.
#[derive(Debug, Clone)]
pub struct Config {
    /// Output directory for converted system-scope services, the units under
    /// `usr/lib/systemd/system/` and any other path.
    pub output_dir: String,
    /// Output directory for converted user-scope services: those whose
    /// source path is under `usr/lib/systemd/user/`.
    /// `/usr/share/dinit.d/` is the conventional place for
    /// distribution-provided user services available to every user's dinit.
    pub user_output_dir: String,
    pub ignored_units: Vec<String>,
    pub dependency_map: DependencyMap,
}

pub struct ConfigView {
    pub output_dir: Seq<char>,
    pub user_output_dir: Seq<char>,
    pub ignored_units: Seq<Seq<char>>,
    pub dependency_map: Map<Seq<char>, Seq<char>>,
}

impl View for Config {
    type V = ConfigView;

    open spec fn view(&self) -> ConfigView {
        ConfigView {
            output_dir: self.output_dir@,
            user_output_dir: self.user_output_dir@,
            ignored_units: self.ignored_units.deep_view(),
            dependency_map: self.dependency_map@,
        }
    }
}

fn builtin_dependency_map() -> (r: DependencyMap)
    ensures
        r@ == builtin_dependencies(),
{
    let mut m = DependencyMap::new();
    m.insert(String::from_str("network-online.target"), String::from_str("network"));
    m.insert(String::from_str("network.target"), String::from_str("network"));
    m.insert(String::from_str("multi-user.target"), String::from_str("boot"));
    m.insert(String::from_str("sysinit.target"), String::from_str("boot"));
    m.insert(String::from_str("default.target"), String::from_str("boot"));
    m
}

impl Default for Config {
    /// Output to `/etc/dinit.d` (user services to `/usr/share/dinit.d`), no
    /// ignored units, and the built-in dependency mappings.
    fn default() -> (r: Config)
        ensures
            r@.output_dir == "/etc/dinit.d"@,
            r@.user_output_dir == "/usr/share/dinit.d"@,
            r@.ignored_units == Seq::<Seq<char>>::empty(),
            r@.dependency_map == builtin_dependencies(),
    {
        let ignored_units: Vec<String> = Vec::new();
        assert(ignored_units.deep_view() =~= Seq::<Seq<char>>::empty());
        Config {
            output_dir: String::from_str("/etc/dinit.d"),
            user_output_dir: String::from_str("/usr/share/dinit.d"),
            ignored_units,
            dependency_map: builtin_dependency_map(),
        }
    }
}

impl Config {
    /// Adds the built-in dependency mappings for the names the user did not
    /// map: entries already present take precedence over the defaults.
    pub fn merge_builtin_defaults(&mut self)
        ensures
            final(self)@.dependency_map == builtin_dependencies().union_prefer_right(
                old(self)@.dependency_map,
            ),
            final(self)@.output_dir == old(self)@.output_dir,
            final(self)@.user_output_dir == old(self)@.user_output_dir,
            final(self)@.ignored_units == old(self)@.ignored_units,
    {
        let ghost m0 = self.dependency_map@;
        proof {
            lemma_builtin_keys_distinct();
        }
        let ghost b = builtin_dependencies();
        if !self.dependency_map.contains_key("network-online.target") {
            self.dependency_map.insert(String::from_str("network-online.target"), String::from_str("network"));
        }
        if !self.dependency_map.contains_key("network.target") {
            self.dependency_map.insert(String::from_str("network.target"), String::from_str("network"));
        }
        if !self.dependency_map.contains_key("multi-user.target") {
            self.dependency_map.insert(String::from_str("multi-user.target"), String::from_str("boot"));
        }
        if !self.dependency_map.contains_key("sysinit.target") {
            self.dependency_map.insert(String::from_str("sysinit.target"), String::from_str("boot"));
        }
        if !self.dependency_map.contains_key("default.target") {
            self.dependency_map.insert(String::from_str("default.target"), String::from_str("boot"));
        }
        assert(self.dependency_map@ =~= builtin_dependencies().union_prefer_right(m0));
    }
}

/// A unit of the user scope: its path lies under `usr/lib/systemd/user/`
/// (as the package manager gives it, relative to the root, or absolute).
pub open spec fn is_user_unit(p: Seq<char>) -> bool {
    starts_with(p, "usr/lib/systemd/user/"@) || starts_with(p, "/usr/lib/systemd/user/"@)
}

/// The directory the dinit files of the unit at `source` go to.
pub open spec fn output_dir_for(c: ConfigView, source: Seq<char>) -> Seq<char> {
    if is_user_unit(source) {
        c.user_output_dir
    } else {
        c.output_dir
    }
}

impl Config {
    /// The output directory for the unit at `source_path`: `user_output_dir`
    /// for user-scope units, `output_dir` for all others.
    pub fn output_dir_for(&self, source_path: &str) -> (r: &str)
        ensures
            r@ == output_dir_for(self@, source_path@),
    {
        let p = chars_of(source_path);
        if starts_with_exec(&p, &chars_of("usr/lib/systemd/user/")) || starts_with_exec(
            &p,
            &chars_of("/usr/lib/systemd/user/"),
        ) {
            self.user_output_dir.as_str()
        } else {
            self.output_dir.as_str()
        }
    }
}

/// Where the configuration file is looked for: under `$XDG_CONFIG_HOME`,
/// else under `$HOME/.config`, else `/etc/sd2dinit/config.toml`.
pub open spec fn config_path(xdg_config_home: Option<Seq<char>>, home: Option<Seq<char>>) -> Seq<char> {
    match xdg_config_home {
        Some(x) => path_join(x, "sd2dinit/config.toml"@),
        None => match home {
            Some(h) => path_join(h, ".config/sd2dinit/config.toml"@),
            None => "/etc/sd2dinit/config.toml"@,
        },
    }
}

/// The path of the configuration file, given the values of the
/// `XDG_CONFIG_HOME` and `HOME` environment variables (`None` where one is
/// unset).
pub fn config_file_path(xdg_config_home: Option<&str>, home: Option<&str>) -> (r: String)
    ensures
        r@ == config_path(xdg_config_home.deep_view(), home.deep_view()),
{
    match xdg_config_home {
        Some(x) => string_of(&path_join_exec(&chars_of(x), &chars_of("sd2dinit/config.toml"))),
        None => match home {
            Some(h) => string_of(
                &path_join_exec(&chars_of(h), &chars_of(".config/sd2dinit/config.toml")),
            ),
            None => String::from_str("/etc/sd2dinit/config.toml"),
        },
    }
}

} // verus!
