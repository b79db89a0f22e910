//! Deciding which plugin a file-system change belongs to.

use crate::text::{split_on, split_str, str_eq, views};
use vstd::prelude::*;

verus! {

/// The event announced when a file of a plugin changes.
#[derive(Debug, Clone)]
pub struct PluginFileChanged {
    pub plugin_name: String,
}

/// A path reported by the file watcher, and whether it still exists.
#[derive(Debug, Clone)]
pub struct WatchedPath {
    pub path: String,
    pub exists: bool,
}

/// The normal components among `/`-separated segments: empty segments and
/// `.` are dropped.
pub open spec fn normal_segments(segments: Seq<Seq<char>>) -> Seq<Seq<char>>
    decreases segments.len(),
{
    if segments.len() == 0 {
        seq![]
    } else {
        normal_segments(segments.drop_last()) + if segments.last().len() == 0 || segments.last() == "."@ {
            Seq::<Seq<char>>::empty()
        } else {
            seq![segments.last()]
        }
    }
}

/// The components of a Unix path as `Path::components` yields them: a
/// root `/` for an absolute path, a leading `.` kept only at the start of a
/// relative path, then the non-empty segments other than `.`.
pub open spec fn components(path: Seq<char>) -> Seq<Seq<char>> {
    let segments = split_on(path, '/');
    (if path.len() > 0 && path[0] == '/' {
        seq!["/"@]
    } else if segments[0] == "."@ {
        seq!["."@]
    } else {
        Seq::<Seq<char>>::empty()
    }) + normal_segments(segments)
}

/// The first component of `path` below `dir`, if `path` lies under it.
pub open spec fn component_below(dir: Seq<char>, path: Seq<char>) -> Option<Seq<char>> {
    let d = components(dir);
    let p = components(path);
    if d.is_prefix_of(p) && p.len() > d.len() {
        Some(p[d.len() as int])
    } else {
        None
    }
}

/// The plugin of the first changed path that lies under the plugins
/// directory, still exists, and is not in a hidden (`.`-prefixed) entry.
pub open spec fn changed_plugin_spec(dir: Seq<char>, paths: Seq<WatchedPath>) -> Option<Seq<char>>
    decreases paths.len(),
{
    if paths.len() == 0 {
        None
    } else {
        match component_below(dir, paths[0].path@) {
            Some(n) => if paths[0].exists && !(n.len() > 0 && n[0] == '.') {
                Some(n)
            } else {
                changed_plugin_spec(dir, paths.drop_first())
            },
            None => changed_plugin_spec(dir, paths.drop_first()),
        }
    }
}

/// The components of a path.
/// A changed path that names a plugin: it lies under the plugins
/// directory, still exists, and its first component below the directory is
/// not hidden.
pub open spec fn names_plugin(dir: Seq<char>, p: WatchedPath) -> bool {
    &&& p.exists
    &&& component_below(dir, p.path@) is Some
    &&& !(component_below(dir, p.path@)->0.len() > 0 && component_below(dir, p.path@)->0[0] == '.')
}

/// The plugin reported for a batch of changes is the first component below
/// the plugins directory of the first changed path that names a plugin;
/// nothing is reported when no path names one.
pub proof fn lemma_changed_plugin_is_first_naming_path(dir: Seq<char>, paths: Seq<WatchedPath>)
    ensures
        changed_plugin_spec(dir, paths) is None <==> forall|i: int| 0 <= i < paths.len() ==> !names_plugin(dir, #[trigger] paths[i]),
        changed_plugin_spec(dir, paths) is Some ==> exists|i: int| {
            &&& 0 <= i < paths.len()
            &&& names_plugin(dir, #[trigger] paths[i])
            &&& changed_plugin_spec(dir, paths) == component_below(dir, paths[i].path@)
            &&& forall|j: int| 0 <= j < i ==> !names_plugin(dir, #[trigger] paths[j])
        },
    decreases paths.len(),
{
    if paths.len() > 0 {
        let rest = paths.drop_first();
        lemma_changed_plugin_is_first_naming_path(dir, rest);
        assert forall|i: int| 0 <= i < rest.len() implies #[trigger] rest[i] == paths[i + 1] by {}
        if names_plugin(dir, paths[0]) {
            assert(changed_plugin_spec(dir, paths) == component_below(dir, paths[0].path@));
        } else {
            assert(changed_plugin_spec(dir, paths) == changed_plugin_spec(dir, rest));
            if forall|i: int| 0 <= i < rest.len() ==> !names_plugin(dir, #[trigger] rest[i]) {
                assert forall|i: int| 0 <= i < paths.len() implies !names_plugin(dir, #[trigger] paths[i]) by {
                    if i > 0 {
                        assert(paths[i] == rest[i - 1]);
                    }
                }
            } else {
                let k = choose|i: int| 0 <= i < rest.len() && names_plugin(dir, #[trigger] rest[i]);
                assert(names_plugin(dir, paths[k + 1]));
            }
            if changed_plugin_spec(dir, paths) is Some {
                let j = choose|j: int| {
                    &&& 0 <= j < rest.len()
                    &&& names_plugin(dir, #[trigger] rest[j])
                    &&& changed_plugin_spec(dir, rest) == component_below(dir, rest[j].path@)
                    &&& forall|m: int| 0 <= m < j ==> !names_plugin(dir, #[trigger] rest[m])
                };
                assert(paths[j + 1] == rest[j]);
                assert forall|m: int| 0 <= m < j + 1 implies !names_plugin(dir, #[trigger] paths[m]) by {
                    if m > 0 {
                        assert(paths[m] == rest[m - 1]);
                    }
                }
            }
        }
    }
}

pub fn path_components(path: &str) -> (r: Vec<String>)
    ensures
        views(r@) == components(path@),
{
    let segments = split_str(path, '/');
    proof {
        crate::text::lemma_split_nonempty(path@, '/');
    }
    let mut r: Vec<String> = Vec::new();
    if !path.is_empty() && path.get_char(0) == '/' {
        r.push(String::from_str("/"));
    } else if str_eq(segments[0].as_str(), ".") {
        r.push(String::from_str("."));
    }
    assert(views(segments@)[0] == segments@[0]@);
    let ghost head = views(r@);
    let mut i: usize = 0;
    while i < segments.len()
        invariant
            i <= segments@.len(),
            views(segments@) == split_on(path@, '/'),
            views(r@) == head + normal_segments(views(segments@).take(i as int)),
        decreases segments@.len() - i,
    {
        proof {
            assert(views(segments@).take(i + 1).drop_last() =~= views(segments@).take(i as int));
            assert(views(segments@).take(i + 1).last() == segments@[i as int]@);
        }
        let seg = segments[i].as_str();
        if !seg.is_empty() && !str_eq(seg, ".") {
            let ghost prev = r@;
            r.push(String::from_str(seg));
            assert(views(r@) =~= views(prev).push(seg@));
        }
        i = i + 1;
    }
    assert(views(segments@).take(segments@.len() as int) =~= views(segments@));
    r
}

fn component_under(dir: &Vec<String>, path: &str) -> (r: Option<String>)
    ensures
        crate::llm::opt_string_view(r) == match component_below_of(views(dir@), path@) {
            Some(n) => Some(n),
            None => None::<Seq<char>>,
        },
{
    let p = path_components(path);
    if p.len() <= dir.len() {
        return None;
    }
    let mut i: usize = 0;
    while i < dir.len()
        invariant
            i <= dir@.len() < p@.len(),
            views(p@) == components(path@),
            forall|k: int| 0 <= k < i ==> dir@[k]@ == p@[k]@,
        decreases dir@.len() - i,
    {
        if !str_eq(dir[i].as_str(), p[i].as_str()) {
            proof {
                assert(views(dir@)[i as int] != views(p@)[i as int]);
            }
            return None;
        }
        i = i + 1;
    }
    proof {
        assert(views(dir@) =~= views(p@).take(views(dir@).len() as int));
    }
    Some(p[dir.len()].clone())
}

/// `component_below` with the directory's components already computed.
pub open spec fn component_below_of(d: Seq<Seq<char>>, path: Seq<char>) -> Option<Seq<char>> {
    let p = components(path);
    if d.is_prefix_of(p) && p.len() > d.len() {
        Some(p[d.len() as int])
    } else {
        None
    }
}

/// Finds the plugin that a batch of changed paths belongs to.
pub fn get_changed_plugin(plugins_dir: &str, paths: &[WatchedPath]) -> (r: Option<String>)
    ensures
        crate::llm::opt_string_view(r) == changed_plugin_spec(plugins_dir@, paths@),
{
    let dir = path_components(plugins_dir);
    let mut i: usize = 0;
    assert(paths@.skip(0) =~= paths@);
    while i < paths.len()
        invariant
            i <= paths@.len(),
            views(dir@) == components(plugins_dir@),
            changed_plugin_spec(plugins_dir@, paths@) == changed_plugin_spec(plugins_dir@, paths@.skip(i as int)),
        decreases paths@.len() - i,
    {
        proof {
            assert(paths@.skip(i as int).drop_first() =~= paths@.skip(i + 1));
            assert(paths@.skip(i as int)[0] == paths@[i as int]);
        }
        let p = &paths[i];
        match component_under(&dir, p.path.as_str()) {
            Some(name) => {
                let hidden = !name.as_str().is_empty() && name.as_str().get_char(0) == '.';
                if p.exists && !hidden {
                    return Some(name);
                }
            },
            None => {},
        }
        i = i + 1;
    }
    None
}

} // verus!
