//! Which application a screenshot shows, and where it is filed.

use vstd::prelude::*;

use crate::config::{Config, FileFormat};
use crate::geometry::text_of;
use crate::name::{convert_application_name, converted};
use crate::overrides::{
    captured, check_override, checked, cli_view, compiles, regexed, usable, Check, OverrideError,
    Regexed,
};
use crate::path::{
    below, clean, cleaned, join, joined, lemma_files_stay_below, lemma_safe_component, never_up,
    parts, plain_name, relative_paths_stay_below, rooted, starts_with, stays_below, texts,
};
use crate::process::{
    called, found_as, get_process, gives_way, leads, process_of, Process, Trace,
};
use crate::stamp::{
    format_time, four, two, Stamp, DATE_TIME, DAY_TIME, MONTH, MONTH_DAY_TIME, YEAR, YEAR_MONTH,
};
use crate::text::{after_last, decimal, last_segment, show};
use crate::wayland::Selected;

verus! {

pub const MODE: &'static str = "SCREENSHOTTER_MODE";

pub const NAME: &'static str = "SCREENSHOTTER_NAME";

pub const CLASS: &'static str = "SCREENSHOTTER_CLASS";

pub const DIR: &'static str = "SCREENSHOTTER_DIR";

pub const WM_NAME: &'static str = "SCREENSHOTTER_WM_NAME";

pub const WINDOW_ID: &'static str = "SCREENSHOTTER_WINDOW_ID";

pub const PID: &'static str = "SCREENSHOTTER_PID";

pub const GEOMETRY: &'static str = "SCREENSHOTTER_GEOMETRY";

pub const WINDOW_PID: &'static str = "SCREENSHOTTER_WINDOW_PID";

/// The application that a screenshot shows.
#[derive(Debug)]
pub struct Application {
    /// Its directory, as seen from the screenshot directory.
    pub relative_dir: String,
    /// Each year gets a directory of its own.
    pub yearly: bool,
    /// Each month gets a directory of its own.
    pub monthly: bool,
    /// The program to run after a screenshot was taken.
    pub callback: Option<String>,
}

/// What delegates and callbacks are told.
#[derive(Debug)]
pub struct Environment {
    pub mode: Option<String>,
    pub name: Option<String>,
    pub class: Option<String>,
    pub dir: Option<String>,
    pub wm_name: Option<String>,
    pub window_id: Option<String>,
    pub pid: Option<String>,
    pub geometry: Option<String>,
    pub window_pid: Option<String>,
}

/// An application, the command line that it was started with, and what others are told of it.
#[derive(Debug)]
pub struct Located {
    pub application: Application,
    pub cli: Option<Vec<u8>>,
    pub env: Environment,
}

/// Finds out which application was selected.
#[derive(Debug)]
pub struct Finder {
    /// All processes, if a window can be selected.
    pub processes: Option<Vec<Process>>,
}

/// What the overrides lead to.
#[derive(Debug)]
pub enum OverrideStep {
    /// None is left.
    Exhausted,
    /// This one is used.
    Matched { index: usize, dir: Option<String> },
    /// This one is used if the program says so.
    Run { index: usize, delegate: String },
}

/// Why a screenshot is not saved.
#[derive(Debug, Clone, Copy, PartialEq, Eq, Structural)]
pub enum SaveError {
    /// The directory is not in the configured screenshot directory.
    Outside,
}

/// How a screenshot is saved.
#[derive(Debug)]
pub struct SavePlan {
    pub path: String,
    /// The format to write the file in, unless nothing is to be written.
    pub format: Option<FileFormat>,
    /// The programs to run afterwards, in this order.
    pub callbacks: Vec<String>,
}

/// The text is `s`, if there is any.
pub open spec fn is_text(t: Option<String>, s: Option<Seq<char>>) -> bool {
    match (t, s) {
        (Some(t), Some(s)) => t@ == s,
        (None, None) => true,
        _ => false,
    }
}

/// Adds a variable, if it has a value.
pub open spec fn with_var(
    vars: Seq<(Seq<char>, Seq<char>)>,
    name: Seq<char>,
    value: Option<String>,
) -> Seq<(Seq<char>, Seq<char>)> {
    match value {
        Some(v) => vars.push((name, v@)),
        None => vars,
    }
}

/// What variables stand for.
pub open spec fn pairs(v: Seq<(String, String)>) -> Seq<(Seq<char>, Seq<char>)> {
    v.map(|_i: int, p: (String, String)| (p.0@, p.1@))
}

/// Adds a variable, if it has a value.
fn push_var(vars: &mut Vec<(String, String)>, name: &str, value: &Option<String>)
    ensures
        pairs(final(vars)@) == with_var(pairs(old(vars)@), name@, *value),
{
    let ghost before = pairs(vars@);
    match value {
        Some(v) => {
            vars.push((name.to_owned(), v.clone()));
            assert(pairs(vars@) =~= before.push((name@, v@)));
        },
        None => {},
    }
}

impl Environment {
    /// The variables that have a value.
    pub fn vars(&self) -> (r: Vec<(String, String)>)
        ensures
            pairs(r@) == ({
                let v = with_var(Seq::empty(), MODE@, self.mode);
                let v = with_var(v, NAME@, self.name);
                let v = with_var(v, CLASS@, self.class);
                let v = with_var(v, DIR@, self.dir);
                let v = with_var(v, WM_NAME@, self.wm_name);
                let v = with_var(v, WINDOW_ID@, self.window_id);
                let v = with_var(v, PID@, self.pid);
                let v = with_var(v, GEOMETRY@, self.geometry);
                with_var(v, WINDOW_PID@, self.window_pid)
            }),
    {
        let mut vars: Vec<(String, String)> = Vec::new();
        assert(pairs(vars@) =~= Seq::empty());
        push_var(&mut vars, MODE, &self.mode);
        push_var(&mut vars, NAME, &self.name);
        push_var(&mut vars, CLASS, &self.class);
        push_var(&mut vars, DIR, &self.dir);
        push_var(&mut vars, WM_NAME, &self.wm_name);
        push_var(&mut vars, WINDOW_ID, &self.window_id);
        push_var(&mut vars, PID, &self.pid);
        push_var(&mut vars, GEOMETRY, &self.geometry);
        push_var(&mut vars, WINDOW_PID, &self.window_pid);
        vars
    }
}

impl Default for Application {
    fn default() -> (r: Self)
        ensures
            r.relative_dir@.len() == 0,
            !r.yearly,
            !r.monthly,
            r.callback is None,
    {
        Application {
            relative_dir: String::new(),
            yearly: false,
            monthly: false,
            callback: None,
        }
    }
}

/// What is known of the selected window's application before any override: its name, the command
/// line and the process. Its name comes from the process or, where that is not found, from the last
/// segment of its class or the fallback.
pub open spec fn window_trace(config: &Config, ps: Seq<Process>, selected: &Selected) -> Trace {
    let w = selected.window_spec()->0;
    let name = match w.class_spec() {
        Some(c) => converted(after_last(c, '.')),
        None => converted(config.fallback@),
    };
    process_of(ps, texts(config.ignored_parents@), name, w.pid_spec() as u32)
}

/// What [`Finder::application_for`] finds out.
pub open spec fn located(
    config: &Config,
    processes: Option<Vec<Process>>,
    selected: &Selected,
    mode: Seq<char>,
    r: &Located,
) -> bool {
    &&& !r.application.yearly
    &&& !r.application.monthly
    &&& r.application.callback is None
    &&& is_text(r.env.mode, Some(mode))
    &&& is_text(
        r.env.geometry,
        match selected {
            Selected::Nothing => None,
            Selected::Region(region) => Some(text_of(region.int_spec())),
            Selected::RegionWindow(region, _) => Some(text_of(region.int_spec())),
            Selected::Window(w) => Some(text_of(w.region_spec())),
        },
    )
    &&& match selected.window_spec() {
        Some(w) => {
            let t = window_trace(config, processes->0@, selected);
            &&& r.application.relative_dir@ == t.name
            &&& cli_view(r.cli) == t.cli
            &&& is_text(r.env.name, Some(t.name))
            &&& is_text(r.env.dir, Some(joined(config.screenshot_dir@, t.name)))
            &&& is_text(r.env.pid, Some(decimal(t.pid as int)))
            &&& is_text(r.env.wm_name, w.name_spec())
            &&& is_text(r.env.class, w.class_spec())
            &&& is_text(r.env.window_id, Some(w.id_spec()))
            &&& is_text(r.env.window_pid, Some(decimal(w.pid_spec() as int)))
        },
        None => {
            let name = converted(config.fallback@);
            &&& r.application.relative_dir@ == name
            &&& r.cli is None
            &&& is_text(r.env.name, Some(name))
            &&& is_text(r.env.dir, Some(joined(config.screenshot_dir@, name)))
            &&& r.env.pid is None
            &&& r.env.wm_name is None
            &&& r.env.class is None
            &&& r.env.window_id is None
            &&& r.env.window_pid is None
        },
    }
}

/// The text, copied if there is some.
fn owned(s: Option<&str>) -> (r: Option<String>)
    ensures
        match s {
            Some(t) => is_text(r, Some(t@)),
            None => r is None,
        },
{
    match s {
        Some(t) => Some(t.to_owned()),
        None => None,
    }
}

impl Finder {
    /// A finder that knows these processes.
    pub fn init(processes: Vec<Process>) -> (r: Self)
        ensures
            r.processes == Some(processes),
    {
        Finder { processes: Some(processes) }
    }

    /// A finder for when no window can be selected.
    pub fn empty() -> (r: Self)
        ensures
            r.processes is None,
    {
        Finder { processes: None }
    }

    /// Finds out which application was selected, before any override.
    pub fn application_for(self, config: &Config, selected: &Selected, mode: &str) -> (r: Located)
        requires
            selected.wf(),
            selected.window_spec() is Some ==> self.processes is Some,
        ensures
            located(config, self.processes, selected, mode@, &r),
            stays_below(r.application.relative_dir@),
    {
        let geometry: Option<String> = match selected.int_region() {
            Some(region) => Some(region.to_string()),
            None => None,
        };
        let mode: Option<String> = Some(mode.to_owned());
        match selected.window() {
            None => {
                let name = convert_application_name(config.fallback.as_str());
                proof {
                    lemma_safe_component(name@);
                }
                let dir = join(config.screenshot_dir.as_str(), name.as_str());
                let env = Environment {
                    mode,
                    name: Some(name.clone()),
                    class: None,
                    dir: Some(dir),
                    wm_name: None,
                    window_id: None,
                    pid: None,
                    geometry,
                    window_pid: None,
                };
                let application = Application {
                    relative_dir: name,
                    yearly: false,
                    monthly: false,
                    callback: None,
                };
                Located { application, cli: None, env }
            },
            Some(window) => {
                let window_pid: i32 = window.pid();
                let wm_name = owned(window.name());
                let class = owned(window.class());
                let name = match window.class() {
                    Some(c) => convert_application_name(last_segment(c, '.').as_str()),
                    None => convert_application_name(config.fallback.as_str()),
                };
                let processes = self.processes.unwrap();
                let info = get_process(
                    &processes,
                    &config.ignored_parents,
                    name,
                    window_pid as u32,
                );
                proof {
                    assert(info.trace() == window_trace(config, processes@, selected));
                    lemma_safe_component(info.name@);
                }
                let dir = join(config.screenshot_dir.as_str(), info.name.as_str());
                let env = Environment {
                    mode,
                    name: Some(info.name.clone()),
                    class,
                    dir: Some(dir),
                    wm_name,
                    window_id: Some(window.id()),
                    pid: Some(show(info.pid as i64)),
                    geometry,
                    window_pid: Some(show(window_pid as i64)),
                };
                let application = Application {
                    relative_dir: info.name,
                    yearly: false,
                    monthly: false,
                    callback: None,
                };
                Located { application, cli: info.cli, env }
            },
        }
    }
}

/// What override `k` makes of the application is `r`.
pub open spec fn outcome(
    config: &Config,
    l: &Located,
    k: int,
    r: Result<Check, OverrideError>,
) -> bool {
    exists|m: Regexed| #[trigger]
        regexed(&config.overrides@[k], cli_view(l.cli), m) && checked(
            &config.overrides@[k],
            l.application.relative_dir@,
            m,
            r,
        )
}

/// The overrides from `from` up to `to` are not for the application.
pub open spec fn none_match(config: &Config, l: &Located, from: int, to: int) -> bool {
    forall|k: int| from <= k < to ==> #[trigger] outcome(config, l, k, Ok(Check::NoMatch))
}

/// What using override `k` does: its settings are taken over and, if it gives a directory, the
/// application is filed there.
pub open spec fn overridden(
    pre: &Located,
    config: &Config,
    k: int,
    dir: Option<String>,
    post: &Located,
) -> bool {
    let over = config.overrides@[k];
    &&& post.application.yearly == over.yearly
    &&& post.application.monthly == over.monthly
    &&& post.application.callback == over.callback
    &&& post.cli == pre.cli
    &&& post.env == (Environment { name: post.env.name, dir: post.env.dir, ..pre.env })
    &&& match dir {
        Some(d) => {
            &&& post.application.relative_dir == d
            &&& is_text(post.env.name, Some(d@))
            &&& is_text(post.env.dir, Some(joined(config.screenshot_dir@, d@)))
        },
        None => {
            &&& post.application.relative_dir == pre.application.relative_dir
            &&& post.env == pre.env
        },
    }
}

/// What [`Located::next_override`] gives: the first override from `from` on that is for the
/// application, or might be.
pub open spec fn stepped(
    config: &Config,
    l: &Located,
    from: int,
    r: Result<OverrideStep, OverrideError>,
) -> bool {
    let n = config.overrides@.len() as int;
    match r {
        Ok(OverrideStep::Exhausted) => none_match(config, l, from, n),
        Ok(OverrideStep::Matched { index, dir }) => {
            &&& from <= index < n
            &&& none_match(config, l, from, index as int)
            &&& outcome(config, l, index as int, Ok(Check::Matched(dir)))
        },
        Ok(OverrideStep::Run { index, delegate }) => {
            &&& from <= index < n
            &&& none_match(config, l, from, index as int)
            &&& outcome(config, l, index as int, Ok(Check::Delegate(delegate)))
        },
        Err(e) => exists|index: int|
            from <= index < n && none_match(config, l, from, index) && #[trigger] outcome(
                config,
                l,
                index,
                Err(e),
            ),
    }
}

impl Located {
    /// The first override from position `from` on that is for the application, or might be.
    pub fn next_override(&self, config: &Config, from: usize) -> (r: Result<
        OverrideStep,
        OverrideError,
    >)
        requires
            config.overrides_valid(),
            from <= config.overrides@.len(),
        ensures
            stepped(config, self, from as int, r),
            r matches Ok(OverrideStep::Matched { dir: Some(d), .. }) ==> stays_below(d@),
    {
        let mut i: usize = from;
        while i < config.overrides.len()
            invariant
                config.overrides_valid(),
                from <= i <= config.overrides@.len(),
                none_match(config, self, from as int, i as int),
            decreases config.overrides@.len() - i,
        {
            let over = &config.overrides[i];
            assert(usable(&config.overrides@[i as int]));
            let check = check_override(over, self.application.relative_dir.as_str(), &self.cli);
            assert(outcome(config, self, i as int, check));
            match check {
                Err(e) => {
                    return Err(e);
                },
                Ok(Check::Matched(dir)) => {
                    proof {
                        if dir is Some {
                            lemma_safe_component(dir->0@);
                        }
                    }
                    return Ok(OverrideStep::Matched { index: i, dir });
                },
                Ok(Check::Delegate(delegate)) => {
                    return Ok(OverrideStep::Run { index: i, delegate });
                },
                Ok(Check::NoMatch) => {},
            }
            i = i + 1;
        }
        Ok(OverrideStep::Exhausted)
    }

    /// Uses an override: its settings are taken over and, if it gives a directory, the application
    /// is filed there.
    pub fn run_override(&mut self, config: &Config, index: usize, dir: Option<String>)
        requires
            index < config.overrides@.len(),
        ensures
            overridden(old(self), config, index as int, dir, final(self)),
    {
        match dir {
            Some(d) => {
                self.env.name = Some(d.clone());
                self.env.dir = Some(join(config.screenshot_dir.as_str(), d.as_str()));
                self.application.relative_dir = d;
            },
            None => {},
        }
        let over = &config.overrides[index];
        self.application.yearly = over.yearly;
        self.application.monthly = over.monthly;
        self.application.callback = over.callback.clone();
    }

    /// The delegate of an override has ended. If it failed, the override is not for the
    /// application, and the position to go on from is returned.
    pub fn delegate_done(&mut self, config: &Config, index: usize, said: Option<Option<String>>) -> (r:
        Option<usize>)
        requires
            index < config.overrides@.len(),
        ensures
            match said {
                None => r == Some((index + 1) as usize) && *final(self) == *old(self),
                Some(dir) => r is None && overridden(
                    old(self),
                    config,
                    index as int,
                    dir,
                    final(self),
                ),
            },
    {
        let total: usize = config.overrides.len();
        assert(index < total);
        match said {
            None => Some(index + 1),
            Some(dir) => {
                self.run_override(config, index, dir);
                None
            },
        }
    }
}

/// The overrides, tried from position `from` on, turn `l` into `end`: step by step, the next one
/// that [`Located::next_override`] finds is used, or passed over if its delegate fails. `said`
/// holds what the delegate of each override says when it is run.
pub open spec fn run(
    config: &Config,
    l: &Located,
    said: spec_fn(int) -> Option<Option<String>>,
    from: int,
    end: &Located,
) -> bool
    decreases config.overrides@.len() - from,
{
    exists|step: OverrideStep| #[trigger]
        stepped(config, l, from, Ok(step)) && match step {
            OverrideStep::Exhausted => *end == *l,
            OverrideStep::Matched { index, dir } => overridden(l, config, index as int, dir, end),
            OverrideStep::Run { index, .. } => match said(index as int) {
                Some(dir) => overridden(l, config, index as int, dir, end),
                None => run(config, l, said, index + 1, end),
            },
        }
}

/// Override `k` leaves it to its delegate whether it is for the application.
pub open spec fn delegates(config: &Config, l: &Located, k: int) -> bool {
    exists|d: String| asks(config, l, k, d)
}

/// Override `k` leaves it to the delegate `d` whether it is for the application.
pub open spec fn asks(config: &Config, l: &Located, k: int, d: String) -> bool {
    outcome(config, l, k, Ok(Check::Delegate(d)))
}

/// Override `k` is not for the application, or its delegate fails.
pub open spec fn passed_over(
    config: &Config,
    l: &Located,
    said: spec_fn(int) -> Option<Option<String>>,
    k: int,
) -> bool {
    ||| outcome(config, l, k, Ok(Check::NoMatch))
    ||| delegates(config, l, k) && said(k) is None
}

/// Override `k` is for the application and gives it the directory `dir`, if any, itself or by its
/// delegate.
pub open spec fn used(
    config: &Config,
    l: &Located,
    said: spec_fn(int) -> Option<Option<String>>,
    k: int,
    dir: Option<String>,
) -> bool {
    ||| outcome(config, l, k, Ok(Check::Matched(dir)))
    ||| delegates(config, l, k) && said(k) == Some(dir)
}

/// What others are told of the application is the directory that it is filed in, without year and
/// month: its name, and the path below the screenshot directory.
pub open spec fn told(config: &Config, l: &Located) -> bool {
    &&& is_text(l.env.name, Some(l.application.relative_dir@))
    &&& is_text(l.env.dir, Some(joined(config.screenshot_dir@, l.application.relative_dir@)))
}

/// No override is both passed over and used, so the first one that is used is well defined.
pub proof fn overrides_are_used_or_not(
    config: &Config,
    l: &Located,
    said: spec_fn(int) -> Option<Option<String>>,
    k: int,
    dir: Option<String>,
)
    ensures
        !(passed_over(config, l, said, k) && used(config, l, said, k, dir)),
{
    if delegates(config, l, k) {
        let d = choose|d: String| asks(config, l, k, d);
        assert(outcome(config, l, k, Ok(Check::Delegate(d))));
    }
}

/// The overrides are tried in order, and the first one that is for the application decides: its
/// settings are taken over, and later ones are not tried. Without one the application stays as it
/// is.
proof fn lemma_run(
    config: &Config,
    l: &Located,
    said: spec_fn(int) -> Option<Option<String>>,
    from: int,
    end: &Located,
)
    requires
        0 <= from <= config.overrides@.len(),
        run(config, l, said, from, end),
    ensures
        ({
            let n = config.overrides@.len() as int;
            ||| {
                &&& *end == *l
                &&& forall|j: int| from <= j < n ==> #[trigger] passed_over(config, l, said, j)
            }
            ||| exists|k: int, dir: Option<String>| {
                &&& from <= k < n
                &&& #[trigger] used(config, l, said, k, dir)
                &&& overridden(l, config, k, dir, end)
                &&& forall|j: int| from <= j < k ==> #[trigger] passed_over(config, l, said, j)
            }
        }),
    decreases config.overrides@.len() - from,
{
    let n = config.overrides@.len() as int;
    let step = choose|step: OverrideStep| #[trigger]
        stepped(config, l, from, Ok(step)) && match step {
            OverrideStep::Exhausted => *end == *l,
            OverrideStep::Matched { index, dir } => overridden(l, config, index as int, dir, end),
            OverrideStep::Run { index, .. } => match said(index as int) {
                Some(dir) => overridden(l, config, index as int, dir, end),
                None => run(config, l, said, index + 1, end),
            },
        };
    match step {
        OverrideStep::Exhausted => {
            assert forall|j: int| from <= j < n implies #[trigger] passed_over(
                config,
                l,
                said,
                j,
            ) by {
                assert(outcome(config, l, j, Ok(Check::NoMatch)));
            }
        },
        OverrideStep::Matched { index, dir } => {
            assert forall|j: int| from <= j < index implies #[trigger] passed_over(
                config,
                l,
                said,
                j,
            ) by {
                assert(outcome(config, l, j, Ok(Check::NoMatch)));
            }
            assert(used(config, l, said, index as int, dir));
        },
        OverrideStep::Run { index, delegate } => {
            assert(asks(config, l, index as int, delegate));
            assert forall|j: int| from <= j < index implies #[trigger] passed_over(
                config,
                l,
                said,
                j,
            ) by {
                assert(outcome(config, l, j, Ok(Check::NoMatch)));
            }
            match said(index as int) {
                Some(dir) => {
                    assert(used(config, l, said, index as int, dir));
                },
                None => {
                    assert(passed_over(config, l, said, index as int));
                    lemma_run(config, l, said, index + 1, end);
                },
            }
        },
    }
}

/// The overrides are tried in order, and the first one that is for the application decides: its
/// settings are taken over, and later ones are not tried. Without one there is no directory for the
/// year or the month, and no callback of its own. Either way delegates and callbacks are told the
/// directory that the application ends up in, without year and month.
pub proof fn the_first_override_decides(
    config: &Config,
    processes: Option<Vec<Process>>,
    selected: &Selected,
    mode: Seq<char>,
    start: &Located,
    said: spec_fn(int) -> Option<Option<String>>,
    end: &Located,
)
    requires
        located(config, processes, selected, mode, start),
        run(config, start, said, 0, end),
    ensures
        told(config, start),
        told(config, end),
        ({
            let n = config.overrides@.len() as int;
            let app = end.application;
            ||| {
                &&& forall|j: int| 0 <= j < n ==> #[trigger] passed_over(config, start, said, j)
                &&& app.relative_dir@ == start.application.relative_dir@
                &&& !app.yearly && !app.monthly && app.callback is None
            }
            ||| exists|k: int, dir: Option<String>| {
                let over = config.overrides@[k];
                &&& 0 <= k < n
                &&& #[trigger] used(config, start, said, k, dir)
                &&& forall|j: int| 0 <= j < k ==> #[trigger] passed_over(config, start, said, j)
                &&& app.relative_dir@ == match dir {
                    Some(d) => d@,
                    None => start.application.relative_dir@,
                }
                &&& app.yearly == over.yearly && app.monthly == over.monthly && app.callback
                    == over.callback
            }
        }),
{
    lemma_run(config, start, said, 0, end);
}

/// Where a screenshot goes, without the extension: below the application's directory, in
/// directories for the year and the month if it has such.
pub open spec fn file_path(config: &Config, app: &Application, stamp: Stamp) -> Seq<char> {
    let dir = joined(config.screenshot_dir@, app.relative_dir@);
    let year = four(stamp.year as int);
    let month = two(stamp.month as int);
    if app.yearly && app.monthly {
        joined(joined(joined(dir, year), month), stamp.day_time())
    } else if app.yearly {
        joined(joined(dir, year), stamp.month_day_time())
    } else if app.monthly {
        joined(joined(dir, stamp.year_month()), stamp.day_time())
    } else {
        joined(dir, stamp.date_time())
    }
}

/// The application's directory is in the screenshot directory.
pub open spec fn dir_allowed(config: &Config, app: &Application) -> bool {
    below(cleaned(joined(config.screenshot_dir@, app.relative_dir@)), config.screenshot_dir@)
}

/// The text of each of the programs that are there.
pub open spec fn programs(own: Option<String>, general: Option<String>) -> Seq<Seq<char>> {
    match (own, general) {
        (Some(a), Some(b)) => seq![a@, b@],
        (Some(a), None) => seq![a@],
        (None, Some(b)) => seq![b@],
        (None, None) => Seq::empty(),
    }
}

impl Application {
    /// Where a screenshot goes, without the extension.
    fn path_for(&self, dir: &str, stamp: &Stamp) -> (r: String)
        requires
            stamp.wf(),
        ensures
            r@ == ({
                let year = four(stamp.year as int);
                let month = two(stamp.month as int);
                if self.yearly && self.monthly {
                    joined(joined(joined(dir@, year), month), stamp.day_time())
                } else if self.yearly {
                    joined(joined(dir@, year), stamp.month_day_time())
                } else if self.monthly {
                    joined(joined(dir@, stamp.year_month()), stamp.day_time())
                } else {
                    joined(dir@, stamp.date_time())
                }
            }),
    {
        if self.yearly && self.monthly {
            let year = join(dir, format_time(stamp, YEAR).as_str());
            let month = join(year.as_str(), format_time(stamp, MONTH).as_str());
            join(month.as_str(), format_time(stamp, DAY_TIME).as_str())
        } else if self.yearly {
            let year = join(dir, format_time(stamp, YEAR).as_str());
            join(year.as_str(), format_time(stamp, MONTH_DAY_TIME).as_str())
        } else if self.monthly {
            let month = join(dir, format_time(stamp, YEAR_MONTH).as_str());
            join(month.as_str(), format_time(stamp, DAY_TIME).as_str())
        } else {
            join(dir, format_time(stamp, DATE_TIME).as_str())
        }
    }

    /// Decides how a screenshot that was taken at `stamp` is saved. Nothing is saved outside the
    /// screenshot directory. In a dry run, nothing is written or run.
    pub fn save_file(self, config: &Config, stamp: &Stamp, dry_run: bool) -> (r: Result<
        SavePlan,
        SaveError,
    >)
        requires
            stamp.wf(),
        ensures
            match r {
                Err(e) => e == SaveError::Outside && !dir_allowed(config, &self),
                Ok(plan) => {
                    &&& dir_allowed(config, &self)
                    &&& if dry_run {
                        &&& plan.path@ == file_path(config, &self, *stamp)
                        &&& plan.format is None
                        &&& plan.callbacks@.len() == 0
                    } else {
                        &&& plan.path@ == file_path(config, &self, *stamp) + seq!['.']
                            + match config.format {
                            FileFormat::Png => "png"@,
                            FileFormat::Webp => "webp"@,
                        }
                        &&& plan.format == Some(config.format)
                        &&& texts(plan.callbacks@) == programs(self.callback, config.callback)
                    }
                },
            },
    {
        let dir = join(config.screenshot_dir.as_str(), self.relative_dir.as_str());
        if !starts_with(clean(dir.as_str()).as_str(), config.screenshot_dir.as_str()) {
            return Err(SaveError::Outside);
        }
        let mut path = self.path_for(dir.as_str(), stamp);
        let mut callbacks: Vec<String> = Vec::new();
        if dry_run {
            return Ok(SavePlan { path, format: None, callbacks });
        }
        let ghost stem = path@;
        path.push('.');
        let ghost dotted = path@;
        let extension = config.format.extension();
        for c in iter: extension.chars()
            invariant
                iter.seq() == extension@,
                path@ == dotted + extension@.take(iter.index() as int),
        {
            let ghost k = iter.index() as int;
            path.push(c);
            assert(path@ =~= dotted + extension@.take(k + 1));
        }
        assert(extension@.take(extension@.len() as int) =~= extension@);
        assert(path@ =~= stem + seq!['.'] + extension@);
        match &self.callback {
            Some(c) => callbacks.push(c.clone()),
            None => {},
        }
        match &config.callback {
            Some(c) => callbacks.push(c.clone()),
            None => {},
        }
        assert(texts(callbacks@) =~= programs(self.callback, config.callback));
        Ok(SavePlan { path, format: Some(config.format), callbacks })
    }
}

/// An application that is filed where windows, formats and delegates say is never refused, and so
/// its screenshots are always saved, if the screenshot directory is rooted and never goes up.
pub proof fn applications_are_saved(config: &Config, app: &Application)
    requires
        rooted(config.screenshot_dir@),
        never_up(parts(config.screenshot_dir@)),
        stays_below(app.relative_dir@),
    ensures
        dir_allowed(config, app),
{
    relative_paths_stay_below(config.screenshot_dir@, app.relative_dir@);
}

proof fn lemma_plain_join(a: Seq<char>, b: Seq<char>)
    requires
        plain_name(a),
        plain_name(b),
    ensures
        plain_name(a + b),
{
    assert forall|i: int| 0 <= i < (a + b).len() implies #[trigger] (a + b)[i] != '/' && (a + b)[i]
        != '.' by {
        if i < a.len() {
            assert((a + b)[i] == a[i]);
        } else {
            assert((a + b)[i] == b[i - a.len()]);
        }
    }
}

proof fn lemma_plain_two(n: int)
    requires
        0 <= n <= 99,
    ensures
        plain_name(two(n)),
        two(n).len() == 2,
{
}

proof fn lemma_plain_four(n: int)
    requires
        0 <= n <= 9999,
    ensures
        plain_name(four(n)),
        four(n).len() == 4,
{
    lemma_plain_two(n / 100);
    lemma_plain_two(n % 100);
    lemma_plain_join(two(n / 100), two(n % 100));
}

/// The parts of a moment can be the names of files.
proof fn lemma_plain_stamp(stamp: Stamp)
    requires
        stamp.wf(),
    ensures
        plain_name(stamp.day_time()) && stamp.day_time().len() > 0,
        plain_name(stamp.month_day_time()) && stamp.month_day_time().len() > 0,
        plain_name(stamp.year_month()) && stamp.year_month().len() > 0,
        plain_name(stamp.date_time()) && stamp.date_time().len() > 0,
{
    let hyphen = seq!['-'];
    let line = seq!['_'];
    let day = two(stamp.day as int);
    let hour = two(stamp.hour as int);
    let minute = two(stamp.minute as int);
    let second = two(stamp.second as int);
    let month = two(stamp.month as int);
    let year = four(stamp.year as int);
    lemma_plain_two(stamp.day as int);
    lemma_plain_two(stamp.hour as int);
    lemma_plain_two(stamp.minute as int);
    lemma_plain_two(stamp.second as int);
    lemma_plain_two(stamp.month as int);
    lemma_plain_four(stamp.year as int);
    assert(plain_name(hyphen) && plain_name(line));
    lemma_plain_join(day, line);
    lemma_plain_join(day + line, hour);
    lemma_plain_join(day + line + hour, hyphen);
    lemma_plain_join(day + line + hour + hyphen, minute);
    lemma_plain_join(day + line + hour + hyphen + minute, hyphen);
    lemma_plain_join(day + line + hour + hyphen + minute + hyphen, second);
    lemma_plain_join(month, hyphen);
    lemma_plain_join(month + hyphen, stamp.day_time());
    lemma_plain_join(year, hyphen);
    lemma_plain_join(year + hyphen, month);
    lemma_plain_join(year + hyphen, stamp.month_day_time());
}

/// Nothing is ever saved outside the screenshot directory: where the application's directory is
/// not refused, the file lies below the screenshot directory.
pub proof fn files_are_saved_below(config: &Config, app: &Application, stamp: Stamp)
    requires
        rooted(config.screenshot_dir@),
        stamp.wf(),
        dir_allowed(config, app),
    ensures
        below(cleaned(file_path(config, app, stamp)), config.screenshot_dir@),
{
    let base = config.screenshot_dir@;
    let dir = joined(base, app.relative_dir@);
    let year = four(stamp.year as int);
    let month = two(stamp.month as int);
    lemma_plain_stamp(stamp);
    lemma_plain_four(stamp.year as int);
    lemma_plain_two(stamp.month as int);
    assert(rooted(dir));
    if app.yearly && app.monthly {
        lemma_files_stay_below(base, dir, year);
        lemma_files_stay_below(base, joined(dir, year), month);
        lemma_files_stay_below(base, joined(joined(dir, year), month), stamp.day_time());
    } else if app.yearly {
        lemma_files_stay_below(base, dir, year);
        lemma_files_stay_below(base, joined(dir, year), stamp.month_day_time());
    } else if app.monthly {
        lemma_files_stay_below(base, dir, stamp.year_month());
        lemma_files_stay_below(base, joined(dir, stamp.year_month()), stamp.day_time());
    } else {
        lemma_files_stay_below(base, dir, stamp.date_time());
    }
}

/// The configured program is run whatever the application's own one is, and the other way round:
/// the application's own one comes first, the configured one last, and no other is run.
pub proof fn both_callbacks_are_run(own: Option<String>, general: Option<String>)
    ensures
        ({
            let p = programs(own, general);
            &&& own matches Some(c) ==> p.len() > 0 && p[0] == c@
            &&& general matches Some(c) ==> p.len() > 0 && p[p.len() - 1] == c@
            &&& own is Some && general is Some ==> p.len() == 2
            &&& own is Some != general is Some ==> p.len() == 1
            &&& own is None && general is None ==> p.len() == 0
        }),
{
}

/// A screenshot is filed in the application's directory under its date and time. An application
/// that is filed by year has a directory for each year, one that is filed by month a directory for
/// each month, within that of the year if it is filed by both; what the directories say is left out
/// of the name.
pub proof fn screenshots_are_filed_by_date(config: &Config, app: &Application, stamp: Stamp)
    requires
        stamp.wf(),
        joined(config.screenshot_dir@, app.relative_dir@).len() > 0,
        joined(config.screenshot_dir@, app.relative_dir@).last() != '/',
    ensures
        ({
            let dir = joined(config.screenshot_dir@, app.relative_dir@) + seq!['/'];
            let name = stamp.date_time();
            let path = file_path(config, app, stamp);
            &&& !app.yearly && !app.monthly ==> path == dir + name
            &&& app.yearly && !app.monthly ==> path == dir + name.subrange(0, 4) + seq!['/']
                + name.subrange(5, 19)
            &&& !app.yearly && app.monthly ==> path == dir + name.subrange(0, 7) + seq!['/']
                + name.subrange(8, 19)
            &&& app.yearly && app.monthly ==> path == dir + name.subrange(0, 4) + seq!['/']
                + name.subrange(5, 7) + seq!['/'] + name.subrange(8, 19)
        }),
{
    let base = joined(config.screenshot_dir@, app.relative_dir@);
    let dir = base + seq!['/'];
    let name = stamp.date_time();
    let year = name.subrange(0, 4);
    let month = name.subrange(5, 7);
    crate::stamp::names_are_dates_and_times(stamp);
    assert(year[0] == name[0] && year[3] == name[3]);
    assert(month[0] == name[5] && month[1] == name[6]);
    assert(name.subrange(0, 7)[0] == name[0] && name.subrange(0, 7)[6] == name[6]);
    assert(name.subrange(5, 19)[0] == name[5]);
    assert(name.subrange(8, 19)[0] == name[8]);
    assert(joined(base, year) == dir + year);
    assert((dir + year).last() == name[3]);
    assert((dir + year + seq!['/'] + month).last() == name[6]);
    assert((dir + name.subrange(0, 7)).last() == name[6]);
}

/// A window whose process is not known is filed under what follows the last dot of its class or, if
/// it has no class, under the fallback.
pub proof fn windows_are_filed_by_class(
    config: &Config,
    processes: Seq<Process>,
    selected: &Selected,
    before: Seq<char>,
    after: Seq<char>,
)
    requires
        selected.window_spec() is Some,
        forall|k: int|
            0 <= k < processes.len() ==> (#[trigger] processes[k]).pid
                != selected.window_spec()->0.pid_spec() as u32,
        forall|i: int| 0 <= i < after.len() ==> #[trigger] after[i] != '.',
    ensures
        ({
            let w = selected.window_spec()->0;
            let t = window_trace(config, processes, selected);
            &&& t.cli is None
            &&& w.class_spec() == Some(before + seq!['.'] + after) ==> t.name == converted(after)
            &&& w.class_spec() == Some(after) ==> t.name == converted(after)
            &&& w.class_spec() is None ==> t.name == converted(config.fallback@)
        }),
{
    let w = selected.window_spec()->0;
    let name = match w.class_spec() {
        Some(c) => converted(after_last(c, '.')),
        None => converted(config.fallback@),
    };
    let whole = before + seq!['.'] + after;
    crate::process::unknown_processes_keep_the_name(
        processes,
        texts(config.ignored_parents@),
        name,
        w.pid_spec() as u32,
    );
    assert forall|k: int| before.len() + 1 <= k < whole.len() implies #[trigger] whole[k]
        != '.' by {
        assert(whole[k] == after[k - before.len() - 1]);
    }
    crate::text::lemma_after_last(whole, '.', before.len() as int + 1);
    assert(whole.subrange(before.len() as int + 1, whole.len() as int) =~= after);
    crate::text::lemma_after_last(after, '.', 0);
    assert(after.subrange(0, after.len() as int) =~= after);
}

/// A screenshot is refused exactly if its directory, with every `..` carried out, does not start
/// with the screenshot directory.
pub proof fn directories_outside_are_refused(config: &Config, app: &Application)
    requires
        rooted(config.screenshot_dir@),
    ensures
        ({
            let dir = parts(config.screenshot_dir@);
            let path = cleaned(joined(config.screenshot_dir@, app.relative_dir@));
            dir_allowed(config, app) <==> path.len() > 0 && path[0] == '/' && parts(path).len()
                >= dir.len() && forall|i: int|
                0 <= i < dir.len() ==> #[trigger] parts(path)[i] == dir[i]
        }),
{
    crate::path::paths_below_start_with_the_directory(
        cleaned(joined(config.screenshot_dir@, app.relative_dir@)),
        config.screenshot_dir@,
    );
}

/// A variable that has a value is added behind the others, which stay as they are; one that has none
/// is not added.
pub proof fn variables_are_set_if_known(
    vars: Seq<(Seq<char>, Seq<char>)>,
    name: Seq<char>,
    value: Option<String>,
)
    ensures
        ({
            let r = with_var(vars, name, value);
            &&& value is None ==> r == vars
            &&& value matches Some(v) ==> r.len() == vars.len() + 1 && r[vars.len() as int] == (
                name,
                v@,
            ) && forall|i: int| 0 <= i < vars.len() ==> #[trigger] r[i] == vars[i]
        }),
{
}

/// Others are told of a selected window what it says of itself: its title, its class, its identifier
/// and its process, next to the process that it shows. Of what is not known, nothing is told.
pub proof fn windows_are_told_as_they_are(
    config: &Config,
    processes: Option<Vec<Process>>,
    selected: &Selected,
    mode: Seq<char>,
    r: &Located,
)
    requires
        located(config, processes, selected, mode, r),
        selected.window_spec() is Some,
        processes is Some,
    ensures
        ({
            let w = selected.window_spec()->0;
            let t = window_trace(config, processes->0@, selected);
            &&& r.env.mode is Some && r.env.mode->0@ == mode
            &&& r.env.wm_name is Some <==> w.name_spec() is Some
            &&& w.name_spec() matches Some(n) ==> r.env.wm_name->0@ == n
            &&& r.env.class is Some <==> w.class_spec() is Some
            &&& w.class_spec() matches Some(n) ==> r.env.class->0@ == n
            &&& r.env.window_id is Some && r.env.window_id->0@ == w.id_spec()
            &&& r.env.window_pid is Some && r.env.window_pid->0@ == decimal(w.pid_spec() as int)
            &&& r.env.pid is Some && r.env.pid->0@ == decimal(t.pid as int)
            &&& r.env.name is Some && r.env.name->0@ == t.name
            &&& r.application.relative_dir@ == t.name
            &&& r.cli is Some <==> t.cli is Some
            &&& t.cli matches Some(line) ==> r.cli->0@ == line
        }),
{
}

/// Where no window was selected, the fallback names the directory, and no window is told of.
pub proof fn the_fallback_is_used_without_a_window(
    config: &Config,
    processes: Option<Vec<Process>>,
    selected: &Selected,
    mode: Seq<char>,
    r: &Located,
)
    requires
        located(config, processes, selected, mode, r),
        selected.window_spec() is None,
    ensures
        r.application.relative_dir@ == converted(config.fallback@),
        r.env.name is Some && r.env.name->0@ == converted(config.fallback@),
        r.env.mode is Some && r.env.mode->0@ == mode,
        r.cli is None,
        r.env.pid is None && r.env.wm_name is None && r.env.class is None,
        r.env.window_id is None && r.env.window_pid is None,
{
}

/// Others are told the region that was selected, in whole pixels, and for a picked window that of
/// its contents. Where a region was selected, the window in its middle does not change that.
pub proof fn the_selected_region_is_told(
    config: &Config,
    processes: Option<Vec<Process>>,
    selected: &Selected,
    mode: Seq<char>,
    r: &Located,
)
    requires
        located(config, processes, selected, mode, r),
    ensures
        match selected {
            Selected::Nothing => r.env.geometry is None,
            Selected::Region(g) => r.env.geometry is Some && r.env.geometry->0@ == text_of(
                g.int_spec(),
            ),
            Selected::RegionWindow(g, _) => r.env.geometry is Some && r.env.geometry->0@ == text_of(
                g.int_spec(),
            ),
            Selected::Window(w) => r.env.geometry is Some && r.env.geometry->0@ == text_of(
                w.region_spec(),
            ),
        },
{
}

/// A window is filed under the process that it shows: `chain` leads from the process that the window
/// says it belongs to, past the parents that the configuration ignores, to that process.
pub proof fn windows_are_filed_by_process(
    config: &Config,
    processes: Seq<Process>,
    selected: &Selected,
    chain: Seq<int>,
)
    requires
        selected.window_spec() is Some,
        leads(
            processes,
            texts(config.ignored_parents@),
            selected.window_spec()->0.pid_spec() as u32,
            chain,
        ),
        chain.len() <= 100,
        exists|n: Seq<char>| #[trigger] called(processes[chain.last()], n) && n.len() > 0,
        !gives_way(processes[chain.last()], texts(config.ignored_parents@)) || forall|k: int|
            0 <= k < processes.len() ==> (#[trigger] processes[k]).is_thread || processes[k].parent
                != Some(processes[chain.last()].pid),
    ensures
        found_as(processes[chain.last()], window_trace(config, processes, selected)),
{
    let w = selected.window_spec()->0;
    let name = match w.class_spec() {
        Some(c) => converted(after_last(c, '.')),
        None => converted(config.fallback@),
    };
    crate::process::ignored_processes_give_way(
        processes,
        texts(config.ignored_parents@),
        name,
        w.pid_spec() as u32,
        chain,
    );
}

/// An override is tried on the directory of the application and on the command line of its process,
/// each as it was found.
pub proof fn overrides_see_the_application(
    config: &Config,
    l: &Located,
    k: int,
    r: Result<Check, OverrideError>,
)
    requires
        0 <= k < config.overrides@.len(),
        usable(&config.overrides@[k]),
        outcome(config, l, k, r),
    ensures
        ({
            let over = config.overrides@[k];
            let named = over.name matches Some(n) ==> crate::path::same_path_spec(
                n@,
                l.application.relative_dir@,
            );
            let broken = over.regex matches Some(p) && !compiles(p@);
            let found = over.regex matches Some(p) ==> (l.cli matches Some(line) && captured(
                p@,
                line@,
            ) is Some);
            &&& !named ==> (r matches Ok(Check::NoMatch))
            &&& named && broken ==> r == Err::<Check, OverrideError>(OverrideError::InvalidRegex)
            &&& named && !broken && !found ==> (r matches Ok(Check::NoMatch))
            &&& named && !broken && found && over.delegate is Some ==> (
            r matches Ok(Check::Delegate(p)) && p@ == over.delegate->0@)
            &&& named && !broken && found && over.delegate is None && over.format is None ==> (
            r matches Ok(Check::Matched(dir)) && dir is None)
            &&& named && !broken && found && over.format is Some ==> (r matches Ok(
                Check::Matched(Some(_)),
            )) || r == Err::<Check, OverrideError>(OverrideError::InvalidFormat)
        }),
{
    let over = config.overrides@[k];
    let m = choose|m: Regexed| #[trigger]
        regexed(&over, cli_view(l.cli), m) && checked(&over, l.application.relative_dir@, m, r);
    crate::overrides::overrides_go_by_name_and_command_line(
        &over,
        l.application.relative_dir@,
        cli_view(l.cli),
        m,
        r,
    );
}

/// Overrides decide on the directory and on how it is divided, and on nothing else: the command line
/// and what is told of the window and of the region stay.
pub proof fn overrides_change_nothing_else(
    config: &Config,
    start: &Located,
    said: spec_fn(int) -> Option<Option<String>>,
    end: &Located,
)
    requires
        run(config, start, said, 0, end),
    ensures
        end.cli == start.cli,
        end.env.mode == start.env.mode,
        end.env.class == start.env.class,
        end.env.wm_name == start.env.wm_name,
        end.env.window_id == start.env.window_id,
        end.env.pid == start.env.pid,
        end.env.geometry == start.env.geometry,
        end.env.window_pid == start.env.window_pid,
{
    lemma_run(config, start, said, 0, end);
}

} // verus!
