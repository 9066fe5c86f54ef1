use vstd::prelude::*;
use crate::library::{sync_media_items, sync_outcome};
use crate::model::{texts, Config, MediaItem, MediaType};
use crate::paths::{compare_paths, join_path, joined, path_eq, path_order};
use crate::playlist::{
    get_included_media, in_path_order, included_items, law_rotation_is_the_included_filter,
    law_sort_keeps_items, sorted_by_path,
};

verus! {

broadcast use vstd::seq_lib::group_to_multiset_ensures;

/// `p` is a rotation order that configuration `c` may give: its included items, in some
/// order when `c` asks for random order, sorted by path otherwise.
pub open spec fn fits_config(p: Seq<MediaItem>, c: Config) -> bool {
    if c.random {
        p.to_multiset() == included_items(c.media@).to_multiset()
    } else {
        p == sorted_by_path(included_items(c.media@)) && in_path_order(p)
    }
}

/// The position after `i` in a rotation of `n` items, going round at the end.
pub open spec fn next_index(i: int, n: int) -> int {
    if n <= 0 {
        0
    } else {
        (i + 1) % n
    }
}

/// The position after `k` steps from `i` in a rotation of `n` items.
pub open spec fn index_after(i: int, n: int, k: nat) -> int
    decreases k,
{
    if k == 0 {
        i
    } else {
        next_index(index_after(i, n, (k - 1) as nat), n)
    }
}

/// The two optional directories are the same (as paths compare).
pub open spec fn same_dir(a: Option<String>, b: Option<String>) -> bool {
    match (a, b) {
        (None, None) => true,
        (Some(x), Some(y)) => path_eq(x@, y@),
        _ => false,
    }
}

/// Seconds to wait before the next change: the configured interval, at least one second.
pub open spec fn interval_of(c: Config) -> u64 {
    if c.interval_seconds >= 1 {
        c.interval_seconds
    } else {
        1
    }
}

/// What the daemon knows between two events: its configuration, the rotation order made
/// from it, and the position of the wallpaper shown.
pub struct Daemon {
    pub config: Config,
    pub playlist: Vec<MediaItem>,
    pub current_index: usize,
}

impl Daemon {
    /// The position lies in the rotation, or is 0 when the rotation is empty.
    pub open spec fn wf(&self) -> bool {
        &&& self.playlist@.len() == 0 ==> self.current_index == 0
        &&& self.playlist@.len() > 0 ==> self.current_index < self.playlist@.len()
    }

    /// The wallpaper at the current position, if the rotation is not empty.
    pub open spec fn shown(&self) -> Option<MediaItem> {
        if self.playlist@.len() == 0 {
            None
        } else {
            Some(self.playlist@[self.current_index as int])
        }
    }

    /// Starts from a configuration, at the first item of its rotation order.
    pub fn new(config: Config) -> (d: Daemon)
        ensures
            d.wf(),
            d.config == config,
            d.current_index == 0,
            fits_config(d.playlist@, config),
    {
        let playlist = get_included_media(&config);
        Daemon { config, playlist, current_index: 0 }
    }

    /// The wallpaper to show now, if any.
    pub fn current(&self) -> (r: Option<MediaItem>)
        requires
            self.wf(),
        ensures
            r == self.shown(),
    {
        if self.playlist.len() == 0 {
            None
        } else {
            Some(self.playlist[self.current_index].duplicate())
        }
    }

    /// The timer ran out or a client asked for the next wallpaper: moves one step on,
    /// going round at the end, and gives the wallpaper to show (none when the rotation is
    /// empty).
    pub fn advance(&mut self) -> (r: Option<MediaItem>)
        requires
            old(self).wf(),
        ensures
            final(self).wf(),
            final(self).config == old(self).config,
            final(self).playlist == old(self).playlist,
            final(self).current_index == next_index(
                old(self).current_index as int,
                old(self).playlist@.len() as int,
            ),
            r == final(self).shown(),
    {
        let n = self.playlist.len();
        if n == 0 {
            return None;
        }
        self.current_index = (self.current_index + 1) % n;
        Some(self.playlist[self.current_index].duplicate())
    }

    /// Seconds until the next change.
    pub fn interval_secs(&self) -> (r: u64)
        ensures
            r == interval_of(self.config),
            r >= 1,
            self.config.interval_seconds >= 1 ==> r == self.config.interval_seconds,
            self.config.interval_seconds == 0 ==> r == 1,
    {
        if self.config.interval_seconds >= 1 {
            self.config.interval_seconds
        } else {
            1
        }
    }

    /// A reloaded configuration names another wallpaper directory than the current one,
    /// so that the new directory must be scanned and watched.
    pub fn wallpaper_dir_changed(&self, new_config: &Config) -> (r: bool)
        ensures
            r == !same_dir(self.config.wallpaper_dir, new_config.wallpaper_dir),
            (self.config.wallpaper_dir matches Some(a) && new_config.wallpaper_dir matches Some(b)
                && a@ == b@) ==> !r,
    {
        match (&self.config.wallpaper_dir, &new_config.wallpaper_dir) {
            (None, None) => false,
            (Some(a), Some(b)) => compare_paths(a.as_str(), b.as_str()) != 0,
            _ => true,
        }
    }

    /// Takes a reloaded configuration: its rotation order, from the first item.
    pub fn adopt_config(&mut self, new_config: Config)
        ensures
            final(self).wf(),
            final(self).config == new_config,
            final(self).current_index == 0,
            fits_config(final(self).playlist@, new_config),
    {
        self.playlist = get_included_media(&new_config);
        self.config = new_config;
        self.current_index = 0;
    }

    /// The wallpaper directory changed on disk and was scanned: syncs the media list, and
    /// when it changed, rebuilds the rotation from the first item. Tells whether the list
    /// changed (the configuration must then be saved).
    pub fn rescan(&mut self, discovered: Vec<MediaItem>, present: &Vec<String>) -> (changed: bool)
        requires
            old(self).wf(),
        ensures
            final(self).wf(),
            sync_outcome(
                old(self).config,
                discovered@,
                texts(present@),
                final(self).config,
                changed,
            ),
            changed ==> final(self).current_index == 0 && fits_config(
                final(self).playlist@,
                final(self).config,
            ),
            !changed ==> final(self).playlist == old(self).playlist && final(self).current_index
                == old(self).current_index,
    {
        let changed = sync_media_items(&mut self.config, discovered, present);
        if changed {
            self.playlist = get_included_media(&self.config);
            self.current_index = 0;
        }
        changed
    }

    /// Takes one event of the daemon's loop: moves to the next state and tells what the
    /// loop must do, in order.
    ///
    /// - The timer ran out, or a client asked for the next wallpaper: restart the timer,
    ///   step the rotation on, and show its wallpaper (if any).
    /// - The configuration file was read again: with the same wallpaper directory, take it
    ///   and restart the timer; with another one, change nothing yet and ask for the new
    ///   directory to be scanned first.
    /// - The new directory was scanned (or could not be, `None`): sync the new
    ///   configuration with the scan, save it when its media changed, watch its
    ///   directory, take it and restart the timer.
    /// - The wallpaper directory changed on disk and was scanned: sync the media list and
    ///   save the configuration when it changed.
    pub fn handle(&mut self, event: DaemonEvent) -> (r: Vec<DaemonAction>)
        requires
            old(self).wf(),
        ensures
            final(self).wf(),
            match event {
                DaemonEvent::TimerExpired | DaemonEvent::NextRequested => {
                    &&& final(self).config == old(self).config
                    &&& final(self).playlist == old(self).playlist
                    &&& final(self).current_index == next_index(
                        old(self).current_index as int,
                        old(self).playlist@.len() as int,
                    )
                    &&& r@ == seq![DaemonAction::ResetTimer(interval_of(old(self).config))]
                        + show_of(final(self).shown())
                },
                DaemonEvent::ConfigReloaded(new_config) => {
                    if same_dir(old(self).config.wallpaper_dir, new_config.wallpaper_dir) {
                        &&& final(self).config == new_config
                        &&& final(self).current_index == 0
                        &&& fits_config(final(self).playlist@, new_config)
                        &&& r@ == seq![DaemonAction::ResetTimer(interval_of(new_config))]
                    } else {
                        &&& final(self).config == old(self).config
                        &&& final(self).playlist == old(self).playlist
                        &&& final(self).current_index == old(self).current_index
                        &&& r@ == seq![DaemonAction::ScanNewDirectory(new_config)]
                    }
                },
                DaemonEvent::NewDirectoryScanned(new_config, scan) => {
                    let saved = r@.len() == 3;
                    &&& match scan {
                        Some(s) => sync_outcome(
                            new_config,
                            s.discovered@,
                            texts(s.present@),
                            final(self).config,
                            saved,
                        ),
                        None => final(self).config == new_config && !saved,
                    }
                    &&& final(self).current_index == 0
                    &&& fits_config(final(self).playlist@, final(self).config)
                    &&& r@ == save_if(saved) + seq![
                        DaemonAction::WatchDirectory,
                        DaemonAction::ResetTimer(interval_of(final(self).config)),
                    ]
                },
                DaemonEvent::DirectoryScanned(s) => {
                    let saved = r@.len() == 1;
                    &&& sync_outcome(
                        old(self).config,
                        s.discovered@,
                        texts(s.present@),
                        final(self).config,
                        saved,
                    )
                    &&& r@ == save_if(saved)
                    &&& saved ==> final(self).current_index == 0 && fits_config(
                        final(self).playlist@,
                        final(self).config,
                    )
                    &&& !saved ==> final(self).playlist == old(self).playlist
                        && final(self).current_index == old(self).current_index
                },
            },
    {
        let mut actions: Vec<DaemonAction> = Vec::new();
        match event {
            DaemonEvent::TimerExpired | DaemonEvent::NextRequested => {
                actions.push(DaemonAction::ResetTimer(self.interval_secs()));
                match self.advance() {
                    Some(item) => actions.push(DaemonAction::Show(item)),
                    None => {},
                }
            },
            DaemonEvent::ConfigReloaded(new_config) => {
                if self.wallpaper_dir_changed(&new_config) {
                    actions.push(DaemonAction::ScanNewDirectory(new_config));
                } else {
                    self.adopt_config(new_config);
                    actions.push(DaemonAction::ResetTimer(self.interval_secs()));
                }
            },
            DaemonEvent::NewDirectoryScanned(new_config, scan) => {
                let mut config = new_config;
                match scan {
                    Some(s) => {
                        if sync_media_items(&mut config, s.discovered, &s.present) {
                            actions.push(DaemonAction::SaveConfig);
                        }
                    },
                    None => {},
                }
                actions.push(DaemonAction::WatchDirectory);
                self.adopt_config(config);
                actions.push(DaemonAction::ResetTimer(self.interval_secs()));
            },
            DaemonEvent::DirectoryScanned(s) => {
                if self.rescan(s.discovered, &s.present) {
                    actions.push(DaemonAction::SaveConfig);
                }
            },
        }
        proof {
            assert(actions@ =~= actions@);
        }
        actions
    }
}

/// What a scan of the wallpaper directory found: the discovered media, and the paths,
/// among the listed and the discovered items, whose files exist.
pub struct Scan {
    pub discovered: Vec<MediaItem>,
    pub present: Vec<String>,
}

/// What happens to the daemon.
pub enum DaemonEvent {
    /// The rotation timer ran out.
    TimerExpired,
    /// A client asked for the next wallpaper.
    NextRequested,
    /// The configuration file was read again.
    ConfigReloaded(Config),
    /// The directory of a reloaded configuration was scanned (`None` when it could not be).
    NewDirectoryScanned(Config, Option<Scan>),
    /// The current wallpaper directory changed on disk and was scanned.
    DirectoryScanned(Scan),
}

/// What the daemon's loop must do.
pub enum DaemonAction {
    /// Put this wallpaper on screen.
    Show(MediaItem),
    /// Restart the rotation timer with this many seconds.
    ResetTimer(u64),
    /// Write the daemon's configuration to its file.
    SaveConfig,
    /// Scan the directory of this reloaded configuration, then report
    /// `NewDirectoryScanned` with it.
    ScanNewDirectory(Config),
    /// Watch the configuration file and the daemon's wallpaper directory afresh.
    WatchDirectory,
}

/// Showing a wallpaper, if there is one.
pub open spec fn show_of(m: Option<MediaItem>) -> Seq<DaemonAction> {
    match m {
        Some(item) => seq![DaemonAction::Show(item)],
        None => Seq::empty(),
    }
}

/// Saving the configuration, if `b`.
pub open spec fn save_if(b: bool) -> Seq<DaemonAction> {
    if b {
        seq![DaemonAction::SaveConfig]
    } else {
        Seq::empty()
    }
}

/// Keeps track of the wallpaper last set, so that setting it again is skipped.
pub struct WallpaperManager {
    pub current_path: Option<String>,
}

/// Where the wallpaper-switching script lives under a home directory.
pub open spec fn script_path_under(home: Seq<char>) -> Seq<char> {
    joined(home, ".config/quickshell/ii/scripts/colors/switchwall.sh"@)
}

impl WallpaperManager {
    /// No wallpaper set yet.
    pub fn new() -> (r: WallpaperManager)
        ensures
            r.current_path is None,
    {
        WallpaperManager { current_path: None }
    }

    /// The wallpaper at `path` is the one set last (as paths compare), so setting it again
    /// is skipped.
    pub fn is_current(&self, path: &str) -> (r: bool)
        ensures
            r == (self.current_path matches Some(c) && path_eq(c@, path@)),
    {
        match &self.current_path {
            Some(c) => compare_paths(c.as_str(), path) == 0,
            None => false,
        }
    }

    /// Records that the wallpaper at `path` has been set.
    pub fn record_set(&mut self, path: &str)
        ensures
            final(self).current_path matches Some(c) && c@ == path@,
    {
        self.current_path = Some(path.to_owned());
    }

    /// The path of the script that switches the wallpaper, under the user's home.
    pub fn script_path(home: &str) -> (r: String)
        ensures
            r@ == script_path_under(home@),
    {
        join_path(home, ".config/quickshell/ii/scripts/colors/switchwall.sh")
    }
}

/// How a wallpaper is put on screen: the program to run and its arguments.
pub struct Launch {
    pub program: String,
    pub args: Vec<String>,
}

/// The program that shows a wallpaper: the switch script under the home directory for an
/// image, `mpvpaper` for a video.
pub open spec fn launch_program_of(home: Seq<char>, t: MediaType) -> Seq<char> {
    match t {
        MediaType::Image => script_path_under(home),
        MediaType::Video => "mpvpaper"@,
    }
}

/// The arguments: the image's path for the script; for `mpvpaper`, mpv's `loop` option,
/// every output (`*`) and the video's path, so that the video plays on all outputs without
/// end.
pub open spec fn launch_args_of(path: Seq<char>, t: MediaType) -> Seq<Seq<char>> {
    match t {
        MediaType::Image => seq![path],
        MediaType::Video => seq!["-o"@, "loop"@, "*"@, path],
    }
}

/// The program and arguments that show the wallpaper at `path` (see `launch_program_of`
/// and `launch_args_of`).
pub fn wallpaper_launch(home: &str, path: &str, media_type: MediaType) -> (r: Launch)
    ensures
        r.program@ == launch_program_of(home@, media_type),
        r.args@.map_values(|s: String| s@) == launch_args_of(path@, media_type),
{
    let mut args: Vec<String> = Vec::new();
    match media_type {
        MediaType::Image => {
            args.push(path.to_owned());
            proof {
                assert(args@.map_values(|s: String| s@) =~= launch_args_of(path@, media_type));
            }
            Launch { program: WallpaperManager::script_path(home), args }
        },
        MediaType::Video => {
            args.push("-o".to_owned());
            args.push("loop".to_owned());
            args.push("*".to_owned());
            args.push(path.to_owned());
            proof {
                assert(args@.map_values(|s: String| s@) =~= launch_args_of(path@, media_type));
            }
            Launch { program: "mpvpaper".to_owned(), args }
        },
    }
}

/// The daemon's rotation order is made of the configuration's included items: each one as
/// many times as the media list holds it, and no excluded one; in sequential order each
/// path comes no later than the next one's (as `Path` compares).
pub proof fn law_rotation_order_fits_the_config(p: Seq<MediaItem>, c: Config)
    requires
        fits_config(p, c),
    ensures
        forall|m: MediaItem|
            #[trigger] p.to_multiset().count(m) == if m.included {
                c.media@.to_multiset().count(m)
            } else {
                0
            },
        !c.random ==> forall|i: int|
            0 <= i && i + 1 < p.len() ==> path_order(#[trigger] p[i].path@, p[i + 1].path@) <= 0,
{
    law_rotation_is_the_included_filter(c.media@);
    if !c.random {
        law_sort_keeps_items(included_items(c.media@));
        assert forall|i: int| 0 <= i && i + 1 < p.len() implies path_order(
            #[trigger] p[i].path@,
            p[i + 1].path@,
        ) <= 0 by {
            assert(p[i] == p[i] && p[i + 1] == p[i + 1]);
        }
    }
    assert forall|m: MediaItem| #[trigger] p.to_multiset().count(m) == if m.included {
        c.media@.to_multiset().count(m)
    } else {
        0
    } by {
        assert(included_items(c.media@).to_multiset().count(m) == if m.included {
            c.media@.to_multiset().count(m)
        } else {
            0
        });
    }
}

/// The timer runs for the configured interval whenever that is at least one second, and for
/// one second when it is configured as zero: it is the larger of the two.
pub proof fn law_interval_is_configured_at_least_one(c: Config)
    ensures
        c.interval_seconds >= 1 ==> interval_of(c) == c.interval_seconds,
        c.interval_seconds == 0 ==> interval_of(c) == 1,
        interval_of(c) >= 1,
        interval_of(c) >= c.interval_seconds,
{
}

/// Two wallpaper settings name the same directory exactly when both are unset, or both are
/// set to paths that `Path` compares equal. Setting a directory where none was set, or
/// unsetting one, is a change of directory (so a reload then asks for a scan).
pub proof fn law_directory_change(a: Option<String>, b: Option<String>)
    ensures
        a is None && b is None ==> same_dir(a, b),
        a is None && b is Some ==> !same_dir(a, b),
        a is Some && b is None ==> !same_dir(a, b),
        a is Some && b is Some ==> (same_dir(a, b) <==> path_order(a->0@, b->0@) == 0),
{
}

/// Stepping round the rotation: after `k` steps from position `i` of `n`, the position is
/// `(i + k) mod n`.
pub proof fn law_rotation_steps(i: int, n: int, k: nat)
    requires
        0 <= i < n,
    ensures
        index_after(i, n, k) == (i + k) % n,
    decreases k,
{
    if k == 0 {
        vstd::arithmetic::div_mod::lemma_small_mod(i as nat, n as nat);
    } else {
        law_rotation_steps(i, n, (k - 1) as nat);
        vstd::arithmetic::div_mod::lemma_add_mod_noop(i + k - 1, 1, n);
        vstd::arithmetic::div_mod::lemma_mod_bound(i + k - 1, n);
        if n > 1 {
            vstd::arithmetic::div_mod::lemma_small_mod(1, n as nat);
            assert(1int % n == 1);
        } else {
            vstd::arithmetic::div_mod::lemma_mod_self_0(1);
            vstd::arithmetic::div_mod::lemma_mod_self_0(n);
        }
        assert(((i + k - 1) % n + 1int % n) % n == (i + k) % n);
    }
}

/// A full round brings the rotation back: `n` steps from any position return to it.
pub proof fn law_rotation_full_round(i: int, n: int)
    requires
        0 <= i < n,
    ensures
        index_after(i, n, n as nat) == i,
{
    law_rotation_steps(i, n, n as nat);
    vstd::arithmetic::div_mod::lemma_mod_add_multiples_vanish(i, n);
    vstd::arithmetic::div_mod::lemma_small_mod(i as nat, n as nat);
}

/// Every wallpaper of the rotation is shown within one round, from any position.
pub proof fn law_rotation_reaches_every_item(i: int, n: int, j: int)
    requires
        0 <= i < n,
        0 <= j < n,
    ensures
        exists|k: nat| 1 <= k <= n && #[trigger] index_after(i, n, k) == j,
{
    let k: nat = if j > i {
        (j - i) as nat
    } else {
        (j + n - i) as nat
    };
    law_rotation_steps(i, n, k);
    if j > i {
        vstd::arithmetic::div_mod::lemma_small_mod(j as nat, n as nat);
    } else {
        vstd::arithmetic::div_mod::lemma_mod_add_multiples_vanish(j, n);
        vstd::arithmetic::div_mod::lemma_small_mod(j as nat, n as nat);
    }
    assert(index_after(i, n, k) == j);
}

} // verus!
