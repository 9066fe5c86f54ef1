use vstd::prelude::*;
use crate::paths::{compare_paths, path_eq, path_order, path_parent, path_parent_of};

verus! {

/// What the file watcher reports to the daemon's loop.
#[derive(Debug, Clone, Copy, PartialEq, Eq, Structural)]
pub enum WatchEvent {
    /// The configuration file was touched.
    ConfigChanged,
    /// Something in the wallpaper directory was created, modified or removed.
    DirEvent,
}

/// The kind of a file-system event, as far as the daemon tells kinds apart.
#[derive(Debug, Clone, Copy, PartialEq, Eq, Structural)]
pub enum FsEventKind {
    Create,
    Modify,
    Remove,
    /// Any other kind (access, or unknown).
    Other,
}

/// Some path of the event is the configuration file (as paths compare).
pub open spec fn touches_config(paths: Seq<String>, config_path: Seq<char>) -> bool {
    exists|i: int| 0 <= i < paths.len() && path_eq(#[trigger] paths[i]@, config_path)
}

/// Some path of the event is not the configuration file.
pub open spec fn touches_other(paths: Seq<String>, config_path: Seq<char>) -> bool {
    exists|i: int| 0 <= i < paths.len() && !path_eq(#[trigger] paths[i]@, config_path)
}

/// The kind of event changes what a directory holds.
pub open spec fn changes_contents(kind: FsEventKind) -> bool {
    kind == FsEventKind::Create || kind == FsEventKind::Modify || kind == FsEventKind::Remove
}

/// What one file-system event is reported as: a configuration change when it touches the
/// configuration file, then a directory event when it touches another path and creates,
/// modifies or removes.
pub open spec fn events_for(paths: Seq<String>, config_path: Seq<char>, kind: FsEventKind) -> Seq<
    WatchEvent,
> {
    (if touches_config(paths, config_path) {
        seq![WatchEvent::ConfigChanged]
    } else {
        Seq::empty()
    }) + (if touches_other(paths, config_path) && changes_contents(kind) {
        seq![WatchEvent::DirEvent]
    } else {
        Seq::empty()
    })
}

/// What one file-system event is reported as (see `events_for`).
pub fn watch_events_for(paths: &Vec<String>, config_path: &str, kind: FsEventKind) -> (r: Vec<
    WatchEvent,
>)
    ensures
        r@ == events_for(paths@, config_path@, kind),
        (exists|i: int| 0 <= i < paths@.len() && #[trigger] paths@[i]@ == config_path@)
            ==> touches_config(paths@, config_path@),
{
    let mut is_config = false;
    let mut is_dir = false;
    let mut i: usize = 0;
    while i < paths.len()
        invariant
            i <= paths@.len(),
            is_config == exists|j: int| 0 <= j < i && path_eq(#[trigger] paths@[j]@, config_path@),
            is_dir == exists|j: int| 0 <= j < i && !path_eq(#[trigger] paths@[j]@, config_path@),
            forall|j: int|
                0 <= j < i && #[trigger] paths@[j]@ == config_path@ ==> path_eq(
                    paths@[j]@,
                    config_path@,
                ),
        decreases paths@.len() - i,
    {
        if compare_paths(paths[i].as_str(), config_path) == 0 {
            is_config = true;
        } else {
            is_dir = true;
        }
        i = i + 1;
    }
    let mut out: Vec<WatchEvent> = Vec::new();
    if is_config {
        out.push(WatchEvent::ConfigChanged);
    }
    if is_dir {
        match kind {
            FsEventKind::Create | FsEventKind::Modify | FsEventKind::Remove => {
                out.push(WatchEvent::DirEvent);
            },
            FsEventKind::Other => {},
        }
    }
    proof {
        assert(out@ =~= events_for(paths@, config_path@, kind));
    }
    out
}

/// The places to watch: the directory of the configuration file, when it has one, then the
/// wallpaper directory, when there is one.
pub open spec fn watch_targets_of(config_path: Seq<char>, wallpaper_dir: Option<String>) -> Seq<
    Seq<char>,
> {
    (match path_parent_of(config_path) {
        Some(p) => seq![p],
        None => Seq::empty(),
    }) + (match wallpaper_dir {
        Some(d) => seq![d@],
        None => Seq::empty(),
    })
}

/// The places to watch (see `watch_targets_of`).
pub fn watch_targets(config_path: &str, wallpaper_dir: &Option<String>) -> (r: Vec<String>)
    ensures
        r@.map_values(|s: String| s@) == watch_targets_of(config_path@, *wallpaper_dir),
{
    let mut out: Vec<String> = Vec::new();
    match path_parent(config_path) {
        Some(p) => out.push(p),
        None => {},
    }
    match wallpaper_dir {
        Some(d) => out.push(d.clone()),
        None => {},
    }
    proof {
        assert(out@.map_values(|s: String| s@) =~= watch_targets_of(config_path@, *wallpaper_dir));
    }
    out
}

/// An event that touches the configuration file (a path equal to it as `Path` compares) is
/// reported first as a configuration change, whatever its kind; one that does not touch it
/// is never reported as one. A directory event is reported exactly when some other path is
/// touched by a creation, modification or removal, and it comes last; nothing else is
/// reported.
pub proof fn law_event_reports(paths: Seq<String>, config_path: Seq<char>, kind: FsEventKind)
    ensures
        (exists|i: int| 0 <= i < paths.len() && path_order(#[trigger] paths[i]@, config_path) == 0)
            ==> events_for(paths, config_path, kind).len() >= 1 && events_for(
            paths,
            config_path,
            kind,
        )[0] == WatchEvent::ConfigChanged,
        (forall|i: int| 0 <= i < paths.len() ==> path_order(#[trigger] paths[i]@, config_path) != 0)
            ==> !events_for(paths, config_path, kind).contains(WatchEvent::ConfigChanged),
        events_for(paths, config_path, kind).contains(WatchEvent::DirEvent) <==> ((exists|i: int|
            0 <= i < paths.len() && path_order(#[trigger] paths[i]@, config_path) != 0) && (kind
            == FsEventKind::Create || kind == FsEventKind::Modify || kind == FsEventKind::Remove)),
        events_for(paths, config_path, kind).contains(WatchEvent::DirEvent) ==> events_for(
            paths,
            config_path,
            kind,
        ).last() == WatchEvent::DirEvent,
        events_for(paths, config_path, kind).len() <= 2,
{
    let e = events_for(paths, config_path, kind);
    if e.contains(WatchEvent::ConfigChanged) {
        let k = choose|k: int| 0 <= k < e.len() && e[k] == WatchEvent::ConfigChanged;
        if !touches_config(paths, config_path) {
            assert(e[k] == WatchEvent::DirEvent);
        }
    }
    if e.contains(WatchEvent::DirEvent) {
        let k = choose|k: int| 0 <= k < e.len() && e[k] == WatchEvent::DirEvent;
        if !(touches_other(paths, config_path) && changes_contents(kind)) {
            assert(e[k] == WatchEvent::ConfigChanged);
        }
    }
    if touches_other(paths, config_path) && changes_contents(kind) {
        assert(e[e.len() - 1] == WatchEvent::DirEvent);
    }
}

/// The watcher follows the directory of the configuration file (`Path::parent`), when it
/// has one, and then the wallpaper directory, when one is set; nothing else.
pub proof fn law_watch_targets(config_path: Seq<char>, wallpaper_dir: Option<String>)
    ensures
        watch_targets_of(config_path, wallpaper_dir).len() == (if path_parent_of(config_path) is Some { 1int } else { 0int }) + (if wallpaper_dir is Some { 1int } else { 0int }),
        path_parent_of(config_path) matches Some(p) ==> watch_targets_of(config_path, wallpaper_dir)[0] == p,
        wallpaper_dir matches Some(d) ==> watch_targets_of(config_path, wallpaper_dir).last() == d@,
{
}

} // verus!
