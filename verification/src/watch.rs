//! The decisions of the workspace watcher: which file events are ignored, and
//! the debounce that spaces rebuilds apart.
use vstd::prelude::*;

use crate::config::{strings_view, FlashConfig};

verus! {

/// How long after a rebuild further changes are ignored: two seconds, in nanoseconds.
pub const DEBOUNCE_NANOS: u64 = 2_000_000_000u64;

/// `needle` occurs in `haystack` as a contiguous run of characters.
pub open spec fn has_infix(haystack: Seq<char>, needle: Seq<char>) -> bool {
    exists|i: int|
        0 <= i && i + needle.len() <= haystack.len() && #[trigger] haystack.subrange(
            i,
            i + needle.len(),
        ) == needle
}

/// `str::contains` with a string pattern: whether `needle` occurs in `haystack`.
/// Claimed: the result is `has_infix` of the two character sequences (a byte-wise
/// match of two UTF-8 strings is a character-wise one).
#[verifier::external_body]
fn str_contains(haystack: &str, needle: &str) -> (r: bool)
    ensures
        r == has_infix(haystack@, needle@),
{
    haystack.contains(needle)
}

/// `any_path_contains` over the views of strings, path by path.
proof fn lemma_any_path_contains(paths: Seq<String>, needle: Seq<char>)
    ensures
        any_path_contains(strings_view(paths), needle) == exists|i: int|
            0 <= i < paths.len() && has_infix(#[trigger] paths[i]@, needle),
{
    let ps = strings_view(paths);
    if any_path_contains(ps, needle) {
        let i = choose|i: int| 0 <= i < ps.len() && has_infix(#[trigger] ps[i], needle);
        assert(ps[i] == paths[i]@);
    }
    if exists|i: int| 0 <= i < paths.len() && has_infix(#[trigger] paths[i]@, needle) {
        let i = choose|i: int| 0 <= i < paths.len() && has_infix(#[trigger] paths[i]@, needle);
        assert(ps[i] == paths[i]@);
    }
}

/// Some path of `paths` contains `needle`.
pub open spec fn any_path_contains(paths: Seq<Seq<char>>, needle: Seq<char>) -> bool {
    exists|i: int| 0 <= i < paths.len() && has_infix(#[trigger] paths[i], needle)
}

/// Whether some path of `paths` contains `needle`.
fn any_contains(paths: &Vec<String>, needle: &str) -> (r: bool)
    ensures
        r == any_path_contains(strings_view(paths@), needle@),
{
    let ghost ps = strings_view(paths@);
    let mut i: usize = 0;
    while i < paths.len()
        invariant
            0 <= i <= paths.len(),
            ps == strings_view(paths@),
            forall|j: int| 0 <= j < i ==> !has_infix(#[trigger] ps[j], needle@),
        decreases paths.len() - i,
    {
        if str_contains(paths[i].as_str(), needle) {
            assert(has_infix(ps[i as int], needle@));
            return true;
        }
        i = i + 1;
    }
    false
}

/// The event touches a directory that the configuration excludes: some path
/// contains the first directory of `dir`. Only the first entry is consulted,
/// and with no entry nothing is excluded.
pub open spec fn excluded_by_dirs(paths: Seq<Seq<char>>, dirs: Seq<Seq<char>>) -> bool {
    dirs.len() > 0 && any_path_contains(paths, dirs[0])
}

/// Whether a change to `paths` is ignored under `config` (see [`excluded_by_dirs`]).
pub fn is_not_allow_dir(paths: &Vec<String>, config: &FlashConfig) -> (r: bool)
    ensures
        r == excluded_by_dirs(strings_view(paths@), strings_view(config.dir@)),
{
    if config.dir.len() == 0 {
        false
    } else {
        any_contains(paths, config.dir[0].as_str())
    }
}

/// The marker of the build output directory inside a path.
pub const BUILD_OUTPUT_MARKER: &'static str = "/target/";

/// Whether a change to `paths` is inside the build output directory.
pub fn touches_build_output(paths: &Vec<String>) -> (r: bool)
    ensures
        r == any_path_contains(strings_view(paths@), BUILD_OUTPUT_MARKER@),
{
    any_contains(paths, BUILD_OUTPUT_MARKER)
}

/// Which changes the watcher ignores.
pub enum IgnoreRule {
    /// Changes under the first configured directory.
    ConfiguredDirs { dirs: Vec<String> },
    /// Changes inside the build output directory.
    BuildOutput,
}

/// The mathematical model of an [`IgnoreRule`].
pub enum IgnoreRuleView {
    ConfiguredDirs { dirs: Seq<Seq<char>> },
    BuildOutput,
}

impl View for IgnoreRule {
    type V = IgnoreRuleView;

    open spec fn view(&self) -> IgnoreRuleView {
        match self {
            IgnoreRule::ConfiguredDirs { dirs } => IgnoreRuleView::ConfiguredDirs {
                dirs: strings_view(dirs@),
            },
            IgnoreRule::BuildOutput => IgnoreRuleView::BuildOutput,
        }
    }
}

/// A change to `paths` is ignored under `rule`.
pub open spec fn ignored(rule: IgnoreRuleView, paths: Seq<Seq<char>>) -> bool {
    match rule {
        IgnoreRuleView::ConfiguredDirs { dirs } => excluded_by_dirs(paths, dirs),
        IgnoreRuleView::BuildOutput => any_path_contains(paths, BUILD_OUTPUT_MARKER@),
    }
}

/// What the file watcher reports.
pub enum WatchEvent {
    /// Files at these paths were modified.
    Modify { paths: Vec<String> },
    /// Any other kind of change (creation, removal, access, ...).
    Other,
    /// The watcher failed; the message describes why.
    Failed { message: String },
}

/// The mathematical model of a [`WatchEvent`].
pub enum WatchEventView {
    Modify { paths: Seq<Seq<char>> },
    Other,
    Failed { message: Seq<char> },
}

impl View for WatchEvent {
    type V = WatchEventView;

    open spec fn view(&self) -> WatchEventView {
        match self {
            WatchEvent::Modify { paths } => WatchEventView::Modify { paths: strings_view(paths@) },
            WatchEvent::Other => WatchEventView::Other,
            WatchEvent::Failed { message } => WatchEventView::Failed { message: message@ },
        }
    }
}

/// What the watcher does in answer to an event.
#[derive(PartialEq, Eq, Structural, Clone, Copy, Debug)]
pub enum WatchAction {
    /// Build the workspace and deliver to the observers.
    Rebuild,
    /// Nothing to do.
    Skip,
    /// Report the watcher's failure and go on.
    ReportError,
}

/// The watcher's state between events. Times are in nanoseconds since the watcher started.
pub struct WatchLoop {
    pub rule: IgnoreRule,
    /// When the last rebuild was started (the watcher's start before any).
    pub last_processed: u64,
    /// How long after a rebuild further changes are ignored.
    pub debounce: u64,
}

/// The mathematical model of a [`WatchLoop`].
pub struct WatchLoopView {
    pub rule: IgnoreRuleView,
    pub last_processed: int,
    pub debounce: int,
}

impl View for WatchLoop {
    type V = WatchLoopView;

    open spec fn view(&self) -> WatchLoopView {
        WatchLoopView {
            rule: self.rule@,
            last_processed: self.last_processed as int,
            debounce: self.debounce as int,
        }
    }
}

/// The time from `earlier` to `now`, zero when `now` is not after `earlier`.
pub open spec fn elapsed(now: int, earlier: int) -> int {
    if now >= earlier {
        now - earlier
    } else {
        0
    }
}

/// The watcher's answer to event `e` at time `now`, with its next state: a
/// modification that is not ignored rebuilds when more than the debounce has
/// elapsed since the last rebuild, and the rebuild's time becomes the last one.
pub open spec fn watch_step(w: WatchLoopView, e: WatchEventView, now: int) -> (WatchLoopView, WatchAction) {
    match e {
        WatchEventView::Modify { paths } => if ignored(w.rule, paths) {
            (w, WatchAction::Skip)
        } else if elapsed(now, w.last_processed) > w.debounce {
            (WatchLoopView { last_processed: now, ..w }, WatchAction::Rebuild)
        } else {
            (w, WatchAction::Skip)
        },
        WatchEventView::Other => (w, WatchAction::Skip),
        WatchEventView::Failed { .. } => (w, WatchAction::ReportError),
    }
}

impl WatchLoop {
    /// A watcher started at time `start` with the two-second debounce.
    pub fn new(rule: IgnoreRule, start: u64) -> (r: Self)
        ensures
            r@ == (WatchLoopView { rule: rule@, last_processed: start as int, debounce: DEBOUNCE_NANOS as int }),
    {
        WatchLoop { rule, last_processed: start, debounce: DEBOUNCE_NANOS }
    }

    /// Whether a modification of `paths` is ignored under this watcher's rule.
    pub fn ignores(&self, paths: &Vec<String>) -> (r: bool)
        ensures
            r == ignored(self.rule@, strings_view(paths@)),
            self.rule@ matches IgnoreRuleView::ConfiguredDirs { dirs } ==> r == (dirs.len() > 0 && exists|i: int|
                0 <= i < paths.len() && has_infix(#[trigger] paths@[i]@, dirs[0])),
            self.rule@ is BuildOutput ==> r == exists|i: int|
                0 <= i < paths.len() && has_infix(#[trigger] paths@[i]@, BUILD_OUTPUT_MARKER@),
    {
        proof {
            lemma_any_path_contains(paths@, BUILD_OUTPUT_MARKER@);
            if let IgnoreRuleView::ConfiguredDirs { dirs } = self.rule@ {
                if dirs.len() > 0 {
                    lemma_any_path_contains(paths@, dirs[0]);
                }
            }
        }
        match &self.rule {
            IgnoreRule::ConfiguredDirs { dirs } => {
                if dirs.len() == 0 {
                    false
                } else {
                    any_contains(paths, dirs[0].as_str())
                }
            },
            IgnoreRule::BuildOutput => touches_build_output(paths),
        }
    }

    /// Answers one event at time `now` (see [`watch_step`]).
    pub fn on_event(&mut self, event: &WatchEvent, now: u64) -> (a: WatchAction)
        ensures
            (final(self)@, a) == watch_step(old(self)@, event@, now as int),
    {
        match event {
            WatchEvent::Modify { paths } => {
                if self.ignores(paths) {
                    WatchAction::Skip
                } else if now > self.last_processed && now - self.last_processed > self.debounce {
                    self.last_processed = now;
                    WatchAction::Rebuild
                } else {
                    WatchAction::Skip
                }
            },
            WatchEvent::Other => WatchAction::Skip,
            WatchEvent::Failed { .. } => WatchAction::ReportError,
        }
    }
}

/// The watcher's state after answering `steps` (event and time) in order, and
/// the times at which it rebuilt.
pub open spec fn run(w: WatchLoopView, steps: Seq<(WatchEventView, int)>) -> (WatchLoopView, Seq<int>)
    decreases steps.len(),
{
    if steps.len() == 0 {
        (w, Seq::empty())
    } else {
        let (w1, times) = run(w, steps.drop_last());
        let (w2, a) = watch_step(w1, steps.last().0, steps.last().1);
        (w2, if a == WatchAction::Rebuild { times.push(steps.last().1) } else { times })
    }
}

/// A run keeps the rule and the debounce, and remembers its last rebuild.
proof fn lemma_run_state(w: WatchLoopView, steps: Seq<(WatchEventView, int)>)
    ensures
        run(w, steps).0.rule == w.rule,
        run(w, steps).0.debounce == w.debounce,
        run(w, steps).0.last_processed == if run(w, steps).1.len() == 0 {
            w.last_processed
        } else {
            run(w, steps).1.last()
        },
    decreases steps.len(),
{
    if steps.len() > 0 {
        lemma_run_state(w, steps.drop_last());
    }
}

/// However events arrive, each rebuild starts more than the debounce after the
/// one before it, and the first more than the debounce after the watcher's start.
pub proof fn lemma_rebuilds_are_spaced(w: WatchLoopView, steps: Seq<(WatchEventView, int)>)
    requires
        w.debounce >= 0,
    ensures
        run(w, steps).1.len() > 0 ==> run(w, steps).1[0] > w.last_processed + w.debounce,
        forall|k: int|
            0 < k < run(w, steps).1.len() ==> #[trigger] run(w, steps).1[k] > run(w, steps).1[k - 1]
                + w.debounce,
    decreases steps.len(),
{
    if steps.len() > 0 {
        let prev = steps.drop_last();
        lemma_rebuilds_are_spaced(w, prev);
        lemma_run_state(w, prev);
        let times = run(w, prev).1;
        let full = run(w, steps).1;
        let w1 = run(w, prev).0;
        let step = watch_step(w1, steps.last().0, steps.last().1);
        if step.1 == WatchAction::Rebuild {
            assert(elapsed(steps.last().1, w1.last_processed) > w1.debounce);
            assert(full == times.push(steps.last().1));
            assert forall|k: int| 0 < k < full.len() implies #[trigger] full[k] > full[k - 1] + w.debounce by {
                if k < times.len() {
                    assert(full[k] == times[k] && full[k - 1] == times[k - 1]);
                }
            }
        }
    }
}

/// A modification that the rule does not ignore, arriving more than the debounce
/// after the last rebuild, rebuilds, and its time becomes the last rebuild.
pub proof fn lemma_change_after_quiet_period_rebuilds(w: WatchLoopView, paths: Seq<Seq<char>>, now: int)
    requires
        w.debounce >= 0,
        !ignored(w.rule, paths),
        now - w.last_processed > w.debounce,
    ensures
        watch_step(w, WatchEventView::Modify { paths }, now) == (
        WatchLoopView { last_processed: now, ..w }, WatchAction::Rebuild),
{
}

/// A modification arriving no later than the debounce after the last rebuild
/// never rebuilds and leaves the watcher as it was.
pub proof fn lemma_change_within_debounce_is_skipped(w: WatchLoopView, paths: Seq<Seq<char>>, now: int)
    requires
        w.debounce >= 0,
        now - w.last_processed <= w.debounce,
    ensures
        watch_step(w, WatchEventView::Modify { paths }, now) == (w, WatchAction::Skip),
{
}

/// Under the configured-directories rule, a modification with a path that
/// contains the first configured directory is skipped and leaves the watcher as it was.
pub proof fn lemma_change_under_first_dir_is_skipped(
    w: WatchLoopView,
    paths: Seq<Seq<char>>,
    now: int,
    i: int,
)
    requires
        w.rule matches IgnoreRuleView::ConfiguredDirs { dirs } && dirs.len() > 0 && 0 <= i < paths.len()
            && has_infix(paths[i], dirs[0]),
    ensures
        watch_step(w, WatchEventView::Modify { paths }, now) == (w, WatchAction::Skip),
{
}

/// Under the configured-directories rule, a modification none of whose paths
/// contains the first configured directory, arriving more than the debounce after
/// the last rebuild, rebuilds; its time becomes the last rebuild.
pub proof fn lemma_change_outside_first_dir_rebuilds(w: WatchLoopView, paths: Seq<Seq<char>>, now: int)
    requires
        w.debounce >= 0,
        w.rule matches IgnoreRuleView::ConfiguredDirs { dirs } && (dirs.len() == 0 || forall|i: int|
            0 <= i < paths.len() ==> !has_infix(#[trigger] paths[i], dirs[0])),
        now - w.last_processed > w.debounce,
    ensures
        watch_step(w, WatchEventView::Modify { paths }, now) == (
        WatchLoopView { last_processed: now, ..w }, WatchAction::Rebuild),
{
}

/// A modification that the rule ignores never rebuilds and leaves the watcher as it was.
pub proof fn lemma_ignored_change_is_skipped(w: WatchLoopView, paths: Seq<Seq<char>>, now: int)
    requires
        ignored(w.rule, paths),
    ensures
        watch_step(w, WatchEventView::Modify { paths }, now) == (w, WatchAction::Skip),
{
}

} // verus!
