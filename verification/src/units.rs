//! Which unit files are converted: the checks made on a path given on the
//! command line and on each path the package-manager hook receives.

use vstd::prelude::*;

use crate::config::Config;
use crate::paths::{
    extension, extension_of_exec, file_name, file_name_of, file_stem, path_join, path_join_exec,
    stem_of_exec,
};
use crate::text::{chars_of, contains_char, contains_in, slice_of, string_of, trim_range, trim, vec_eq, CharClass};

verus! {

/// The verdict on a unit file named on the command line.
#[derive(Debug, Clone, PartialEq, Eq)]
pub enum UnitFileCheck {
    /// A `.service` unit that can be converted.
    Service,
    /// Some other unit type; the extension is given.
    WrongExtension(String),
    /// A file without an extension.
    NoExtension,
    /// A template or instance unit (`name@.service`).
    Template,
}

pub enum UnitFileCheckView {
    Service,
    WrongExtension(Seq<char>),
    NoExtension,
    Template,
}

impl View for UnitFileCheck {
    type V = UnitFileCheckView;

    open spec fn view(&self) -> UnitFileCheckView {
        match self {
            UnitFileCheck::Service => UnitFileCheckView::Service,
            UnitFileCheck::WrongExtension(e) => UnitFileCheckView::WrongExtension(e@),
            UnitFileCheck::NoExtension => UnitFileCheckView::NoExtension,
            UnitFileCheck::Template => UnitFileCheckView::Template,
        }
    }
}

pub open spec fn is_template(p: Seq<char>) -> bool {
    file_stem(p) matches Some(s) && contains_char(s, '@')
}

/// Only `.service` units are converted, and not templates.
pub open spec fn unit_file_check(p: Seq<char>) -> UnitFileCheckView {
    match extension(p) {
        None => UnitFileCheckView::NoExtension,
        Some(e) => if e != "service"@ {
            UnitFileCheckView::WrongExtension(e)
        } else if is_template(p) {
            UnitFileCheckView::Template
        } else {
            UnitFileCheckView::Service
        },
    }
}

fn template_exec(p: &Vec<char>) -> (r: bool)
    ensures
        r == is_template(p@),
{
    match file_name_of(p) {
        Some(n) => {
            let s = stem_of_exec(&n);
            contains_in(&s, '@')
        },
        None => false,
    }
}

fn extension_exec(p: &Vec<char>) -> (r: Option<Vec<char>>)
    ensures
        extension(p@) == match r {
            Some(v) => Some(v@),
            None => None,
        },
{
    match file_name_of(p) {
        Some(n) => extension_of_exec(&n),
        None => None,
    }
}

/// Decides whether the unit file at `path` is converted.
pub fn check_unit_file(path: &str) -> (r: UnitFileCheck)
    ensures
        r@ == unit_file_check(path@),
{
    let p = chars_of(path);
    match extension_exec(&p) {
        None => UnitFileCheck::NoExtension,
        Some(e) => {
            let svc = chars_of("service");
            if !vec_eq(&e, &svc) {
                UnitFileCheck::WrongExtension(string_of(&e))
            } else if template_exec(&p) {
                UnitFileCheck::Template
            } else {
                UnitFileCheck::Service
            }
        },
    }
}

/// What the hook does with one line of input.
#[derive(Debug, Clone, PartialEq, Eq)]
pub enum HookAction {
    /// Not a `.service` path: passed over without counting.
    Pass,
    /// A template unit: skipped and counted.
    SkipTemplate,
    /// A unit listed in `ignored_units`: skipped and counted.
    SkipIgnored,
    /// Convert the unit at this absolute path (if it exists).
    Convert(String),
}

pub enum HookActionView {
    Pass,
    SkipTemplate,
    SkipIgnored,
    Convert(Seq<char>),
}

impl View for HookAction {
    type V = HookActionView;

    open spec fn view(&self) -> HookActionView {
        match self {
            HookAction::Pass => HookActionView::Pass,
            HookAction::SkipTemplate => HookActionView::SkipTemplate,
            HookAction::SkipIgnored => HookActionView::SkipIgnored,
            HookAction::Convert(p) => HookActionView::Convert(p@),
        }
    }
}

/// Paths from the package manager are relative to the filesystem root.
pub open spec fn rooted(p: Seq<char>) -> Seq<char> {
    if p.len() > 0 && p[0] == '/' {
        p
    } else {
        path_join("/"@, p)
    }
}

pub open spec fn is_ignored(ignored: Seq<Seq<char>>, p: Seq<char>) -> bool {
    file_name(p) matches Some(n) && ignored.contains(n)
}

/// The hook's decision for one input line.
pub open spec fn hook_decision(line: Seq<char>, ignored: Seq<Seq<char>>) -> HookActionView {
    let p = trim(line);
    if extension(p) != Some("service"@) {
        HookActionView::Pass
    } else if is_template(p) {
        HookActionView::SkipTemplate
    } else if is_ignored(ignored, p) {
        HookActionView::SkipIgnored
    } else {
        HookActionView::Convert(rooted(p))
    }
}

fn ignored_exec(ignored: &Vec<String>, p: &Vec<char>) -> (r: bool)
    ensures
        r == is_ignored(ignored.deep_view(), p@),
{
    match file_name_of(p) {
        None => false,
        Some(n) => {
            let mut i: usize = 0;
            while i < ignored.len()
                invariant
                    i <= ignored.len(),
                    file_name(p@) == Some(n@),
                    forall|j: int| 0 <= j < i ==> ignored.deep_view()[j] != n@,
                decreases ignored.len() - i,
            {
                let x = chars_of(ignored[i].as_str());
                assert(ignored.deep_view()[i as int] == ignored@[i as int]@);
                if vec_eq(&x, &n) {
                    assert(ignored.deep_view()[i as int] == n@);
                    return true;
                }
                i = i + 1;
            }
            false
        },
    }
}

/// Decides what the hook does with the path on one input line.
pub fn hook_action(line: &str, config: &Config) -> (r: HookAction)
    ensures
        r@ == hook_decision(line@, config@.ignored_units),
{
    let l = chars_of(line);
    let (a, b) = trim_range(&l, 0, l.len(), CharClass::Space);
    assert(l@.subrange(0, l.len() as int) =~= l@);
    let p = slice_of(&l, a, b);
    let is_service = match extension_exec(&p) {
        Some(e) => {
            let svc = chars_of("service");
            vec_eq(&e, &svc)
        },
        None => false,
    };
    if !is_service {
        return HookAction::Pass;
    }
    if template_exec(&p) {
        return HookAction::SkipTemplate;
    }
    if ignored_exec(&config.ignored_units, &p) {
        return HookAction::SkipIgnored;
    }
    if p.len() > 0 && p[0] == '/' {
        HookAction::Convert(string_of(&p))
    } else {
        let root = chars_of("/");
        HookAction::Convert(string_of(&path_join_exec(&root, &p)))
    }
}

} // verus!
