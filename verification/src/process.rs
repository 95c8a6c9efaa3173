//! Which process a window really shows.

use vstd::prelude::*;

use crate::name::{convert_application_name, converted, safe_name};
use crate::path::{file_name, file_name_spec, texts};
use crate::text::same;

verus! {

/// A process, as far as it matters here.
#[derive(Debug)]
pub struct Process {
    pub pid: u32,
    pub parent: Option<u32>,
    pub start_time: u64,
    pub is_thread: bool,
    /// The path of the program.
    pub exe: Option<String>,
    pub name: String,
    /// The arguments, starting with the program.
    pub cmd: Vec<Vec<u8>>,
}

/// What was found out about a process.
#[derive(Debug)]
pub struct ProcessInfo {
    pub name: String,
    /// The command line, quoted for a shell.
    pub cli: Option<Vec<u8>>,
    pub pid: u32,
}

/// What was found out about a process, in terms of its contents.
pub struct Trace {
    pub name: Seq<char>,
    pub cli: Option<Seq<u8>>,
    pub pid: u32,
}

impl ProcessInfo {
    /// What the information stands for.
    pub open spec fn trace(&self) -> Trace {
        Trace {
            name: self.name@,
            cli: match self.cli {
                Some(c) => Some(c@),
                None => None,
            },
            pid: self.pid,
        }
    }
}

/// What byte strings stand for.
pub open spec fn contents(v: Seq<Vec<u8>>) -> Seq<Seq<u8>> {
    v.map(|_i: int, s: Vec<u8>| s@)
}

/// An argument holds a zero byte.
pub open spec fn has_nul(args: Seq<Seq<u8>>) -> bool {
    exists|i: int, k: int| 0 <= i < args.len() && 0 <= k < args[i].len() && #[trigger] args[i][k] == 0
}

/// The byte means nothing special to a shell.
pub open spec fn unquoted(b: u8) -> bool {
    ||| 0x2b <= b <= 0x3a && b != 0x2c
    ||| 0x40 <= b <= 0x5a
    ||| b == 0x5d
    ||| b == 0x5f
    ||| 0x61 <= b <= 0x7a
}

/// The argument needs no quotes.
pub open spec fn plain(arg: Seq<u8>) -> bool {
    arg.len() > 0 && forall|k: int| 0 <= k < arg.len() ==> unquoted(#[trigger] arg[k])
}

/// The arguments with a space between each two.
pub open spec fn spaced(args: Seq<Seq<u8>>) -> Seq<u8>
    decreases args.len(),
{
    if args.len() == 0 {
        Seq::empty()
    } else if args.len() == 1 {
        args[0]
    } else {
        spaced(args.drop_last()) + seq![0x20u8] + args.last()
    }
}

/// What `shlex::bytes::try_join` gives for arguments without a zero byte.
pub uninterp spec fn command_line(args: Seq<Seq<u8>>) -> Seq<u8>;

/// `shlex::bytes::try_join`: the arguments with spaces between them, each quoted where a shell
/// needs that. It fails exactly if an argument holds a zero byte. Arguments that mean nothing
/// special to a shell are not quoted.
#[verifier::external_body]
fn try_join(args: &Vec<Vec<u8>>) -> (r: Option<Vec<u8>>)
    ensures
        r is None <==> has_nul(contents(args@)),
        r matches Some(line) ==> line@ == command_line(contents(args@)),
        r matches Some(line) ==> ((forall|i: int|
            0 <= i < args@.len() ==> plain((#[trigger] args@[i])@)) ==> line@ == spaced(
            contents(args@),
        )),
{
    shlex::bytes::try_join(args.iter().map(|a| a.as_slice())).ok()
}

/// What a process calls itself: the name of its program or, where that is unknown, its own.
pub open spec fn own_name(p: Process) -> Seq<char> {
    match p.exe {
        Some(e) => match file_name_spec(e@) {
            Some(n) => n,
            None => p.name@,
        },
        None => p.name@,
    }
}

/// The command line of a process.
pub open spec fn own_cli(p: Process) -> Option<Seq<u8>> {
    if has_nul(contents(p.cmd@)) {
        None
    } else {
        Some(command_line(contents(p.cmd@)))
    }
}

/// The first process from position `from` on that has this identifier.
pub open spec fn process_at(ps: Seq<Process>, pid: u32, from: int) -> Option<int>
    decreases ps.len() - from,
{
    if from < 0 || from >= ps.len() {
        None
    } else if ps[from].pid == pid {
        Some(from)
    } else {
        process_at(ps, pid, from + 1)
    }
}

/// A process, no thread, that `pid` started.
pub open spec fn is_child(p: Process, pid: u32) -> bool {
    !p.is_thread && p.parent == Some(pid)
}

/// `a` was started after `b`.
pub open spec fn newer(a: Process, b: Process) -> bool {
    a.start_time > b.start_time || (a.start_time == b.start_time && a.pid > b.pid)
}

/// The most recently started child of `pid` among the first `n` processes.
pub open spec fn newest_child(ps: Seq<Process>, pid: u32, n: int) -> Option<int>
    decreases n,
{
    if n <= 0 {
        None
    } else {
        let rest = newest_child(ps, pid, n - 1);
        if !is_child(ps[n - 1], pid) {
            rest
        } else {
            match rest {
                None => Some(n - 1),
                Some(j) => if newer(ps[n - 1], ps[j]) {
                    Some(n - 1)
                } else {
                    rest
                },
            }
        }
    }
}

/// What process `i` shows: itself, unless its name is one of those that are ignored in favour of
/// what they started most recently. `before` is what is known so far, in case the process has no
/// name. At most `depth` processes are looked at.
pub open spec fn traced(
    ps: Seq<Process>,
    ignored: Seq<Seq<char>>,
    i: int,
    before: Trace,
    depth: nat,
) -> Trace
    decreases depth,
{
    let p = ps[i];
    if depth == 0 || own_name(p).len() == 0 {
        before
    } else {
        let here = Trace { name: converted(own_name(p)), cli: own_cli(p), pid: p.pid };
        if !ignored.contains(here.name) {
            here
        } else {
            match newest_child(ps, p.pid, ps.len() as int) {
                None => here,
                Some(j) => traced(ps, ignored, j, here, (depth - 1) as nat),
            }
        }
    }
}

/// How many processes are looked at.
pub const MAX_DEPTH: usize = 100;

/// What [`get_process`] gives.
pub open spec fn process_of(
    ps: Seq<Process>,
    ignored: Seq<Seq<char>>,
    name: Seq<char>,
    pid: u32,
) -> Trace {
    let start = Trace { name, cli: None, pid };
    match process_at(ps, pid, 0) {
        None => start,
        Some(i) => traced(ps, ignored, i, start, 100),
    }
}

/// The child found is the most recently started one, and there is one if there is any.
pub proof fn newest_child_is_newest(ps: Seq<Process>, pid: u32, n: int)
    requires
        n <= ps.len(),
    ensures
        match newest_child(ps, pid, n) {
            Some(j) => 0 <= j < n && is_child(ps[j], pid) && forall|k: int|
                0 <= k < n && is_child(#[trigger] ps[k], pid) ==> !newer(ps[k], ps[j]),
            None => forall|k: int| 0 <= k < n ==> !is_child(#[trigger] ps[k], pid),
        },
    decreases n,
{
    if n > 0 {
        newest_child_is_newest(ps, pid, n - 1);
    }
}

proof fn lemma_process_at(ps: Seq<Process>, pid: u32, from: int)
    requires
        0 <= from,
    ensures
        process_at(ps, pid, from) matches Some(i) ==> from <= i < ps.len() && ps[i].pid == pid,
    decreases ps.len() - from,
{
    if from < ps.len() {
        lemma_process_at(ps, pid, from + 1);
    }
}

/// The first process with this identifier.
fn find_process(ps: &Vec<Process>, pid: u32) -> (r: Option<usize>)
    ensures
        match r {
            Some(i) => i < ps@.len() && process_at(ps@, pid, 0) == Some(i as int),
            None => process_at(ps@, pid, 0) is None,
        },
{
    let mut i: usize = 0;
    while i < ps.len()
        invariant
            i <= ps@.len(),
            process_at(ps@, pid, 0) == process_at(ps@, pid, i as int),
        decreases ps@.len() - i,
    {
        if ps[i].pid == pid {
            return Some(i);
        }
        i = i + 1;
    }
    None
}

/// The most recently started child of `pid`.
fn find_child(ps: &Vec<Process>, pid: u32) -> (r: Option<usize>)
    ensures
        match r {
            Some(i) => i < ps@.len() && newest_child(ps@, pid, ps@.len() as int) == Some(i as int),
            None => newest_child(ps@, pid, ps@.len() as int) is None,
        },
{
    let mut best: Option<usize> = None;
    let mut i: usize = 0;
    while i < ps.len()
        invariant
            i <= ps@.len(),
            match best {
                Some(b) => b < i && newest_child(ps@, pid, i as int) == Some(b as int),
                None => newest_child(ps@, pid, i as int) is None,
            },
        decreases ps@.len() - i,
    {
        let p = &ps[i];
        let child: bool = !p.is_thread && match p.parent {
            Some(q) => q == pid,
            None => false,
        };
        if child {
            best = match best {
                None => Some(i),
                Some(b) => {
                    let o = &ps[b];
                    if p.start_time > o.start_time || (p.start_time == o.start_time && p.pid
                        > o.pid) {
                        Some(i)
                    } else {
                        Some(b)
                    }
                },
            };
        }
        i = i + 1;
    }
    best
}

/// Whether `name` is one of `names`.
fn is_listed(names: &Vec<String>, name: &str) -> (r: bool)
    ensures
        r == texts(names@).contains(name@),
{
    let mut i: usize = 0;
    while i < names.len()
        invariant
            i <= names@.len(),
            forall|k: int| 0 <= k < i ==> (#[trigger] names@[k])@ != name@,
        decreases names@.len() - i,
    {
        if same(names[i].as_str(), name) {
            assert(texts(names@)[i as int] == name@);
            return true;
        }
        i = i + 1;
    }
    proof {
        if texts(names@).contains(name@) {
            let k = choose|k: int| 0 <= k < texts(names@).len() && texts(names@)[k] == name@;
            assert(names@[k]@ == name@);
        }
    }
    false
}

/// What a process calls itself.
fn process_name(p: &Process) -> (r: String)
    ensures
        r@ == own_name(*p),
{
    match &p.exe {
        Some(e) => match file_name(e.as_str()) {
            Some(n) => n,
            None => p.name.clone(),
        },
        None => p.name.clone(),
    }
}

/// The application that runs in the window of process `pid`, which is called `name` if nothing
/// else is found. Ignored parents, such as terminals and shells, give way to what they started
/// most recently.
pub fn get_process(processes: &Vec<Process>, ignored: &Vec<String>, name: String, pid: u32) -> (r:
    ProcessInfo)
    ensures
        r.trace() == process_of(processes@, texts(ignored@), name@, pid),
        safe_name(name@) ==> safe_name(r.name@),
{
    let ghost whole = process_of(processes@, texts(ignored@), name@, pid);
    let mut info = ProcessInfo { name, cli: None, pid };
    let mut at: usize = match find_process(processes, pid) {
        None => {
            return info;
        },
        Some(i) => i,
    };
    let mut left: usize = MAX_DEPTH;
    #[verifier::loop_isolation(false)]
    while left > 0
        invariant
            at < processes@.len(),
            left <= 100,
            whole == traced(processes@, texts(ignored@), at as int, info.trace(), left as nat),
            safe_name(name@) ==> safe_name(info.name@),
        decreases left,
    {
        let p = &processes[at];
        let own = process_name(p);
        if own.as_str().unicode_len() == 0 {
            return info;
        }
        let cli = try_join(&p.cmd);
        info = ProcessInfo { name: convert_application_name(own.as_str()), cli, pid: p.pid };
        if !is_listed(ignored, info.name.as_str()) {
            return info;
        }
        match find_child(processes, p.pid) {
            None => {
                return info;
            },
            Some(j) => {
                at = j;
            },
        }
        left = left - 1;
    }
    info
}

/// `to` is `from`, or was started by it over `n` generations.
pub open spec fn descends(ps: Seq<Process>, from: u32, to: u32, n: nat) -> bool
    decreases n,
{
    if n == 0 {
        from == to
    } else {
        exists|j: int|
            0 <= j < ps.len() && is_child(#[trigger] ps[j], from) && descends(
                ps,
                ps[j].pid,
                to,
                (n - 1) as nat,
            )
    }
}

proof fn lemma_traced_descends(
    ps: Seq<Process>,
    ignored: Seq<Seq<char>>,
    i: int,
    before: Trace,
    depth: nat,
) -> (n: nat)
    requires
        0 <= i < ps.len(),
    ensures
        traced(ps, ignored, i, before, depth) == before || descends(
            ps,
            ps[i].pid,
            traced(ps, ignored, i, before, depth).pid,
            n,
        ),
    decreases depth,
{
    let p = ps[i];
    if depth == 0 || own_name(p).len() == 0 {
        0
    } else {
        let here = Trace { name: converted(own_name(p)), cli: own_cli(p), pid: p.pid };
        newest_child_is_newest(ps, p.pid, ps.len() as int);
        match newest_child(ps, p.pid, ps.len() as int) {
            Some(j) => {
                if ignored.contains(here.name) {
                    let n = lemma_traced_descends(ps, ignored, j, here, (depth - 1) as nat);
                    if traced(ps, ignored, j, here, (depth - 1) as nat) == here {
                        0
                    } else {
                        assert(is_child(ps[j], p.pid));
                        n + 1
                    }
                } else {
                    0
                }
            },
            None => 0,
        }
    }
}

/// The process that was found is the window's own or a descendant of it.
pub proof fn found_process_is_a_descendant(
    ps: Seq<Process>,
    ignored: Seq<Seq<char>>,
    name: Seq<char>,
    pid: u32,
)
    ensures
        exists|n: nat| #[trigger]
            descends(ps, pid, process_of(ps, ignored, name, pid).pid, n),
{
    let start = Trace { name, cli: None, pid };
    let found = process_of(ps, ignored, name, pid);
    match process_at(ps, pid, 0) {
        None => {
            assert(descends(ps, pid, found.pid, 0nat));
        },
        Some(i) => {
            lemma_process_at(ps, pid, 0);
            let n = lemma_traced_descends(ps, ignored, i, start, 100);
            if found == start {
                assert(descends(ps, pid, found.pid, 0nat));
            } else {
                assert(descends(ps, pid, found.pid, n));
            }
        },
    }
}

/// `n` is the file name of the program that the process runs or, where the program or its file
/// name is unknown, the process's own name.
pub open spec fn called(p: Process, n: Seq<char>) -> bool {
    ||| p.exe matches Some(e) && file_name_spec(e@) == Some(n)
    ||| (p.exe matches Some(e) ==> file_name_spec(e@) is None) && n == p.name@
}

/// Process `i` was found: it is known by its name, its own identifier and its arguments, which are
/// joined unless one of them holds a zero byte.
pub open spec fn found_as(p: Process, r: Trace) -> bool {
    &&& exists|n: Seq<char>| #[trigger] called(p, n) && r.name == converted(n)
    &&& r.pid == p.pid
    &&& r.cli is None <==> exists|i: int, k: int|
        0 <= i < p.cmd@.len() && 0 <= k < p.cmd@[i]@.len() && #[trigger] p.cmd@[i]@[k] == 0
    &&& r.cli matches Some(line) ==> exists|args: Seq<Seq<u8>>|
        line == #[trigger] command_line(args) && args.len() == p.cmd@.len() && forall|i: int|
            0 <= i < args.len() ==> #[trigger] args[i] == p.cmd@[i]@
}

/// The process is called by an ignored name.
pub open spec fn gives_way(p: Process, ignored: Seq<Seq<char>>) -> bool {
    exists|n: Seq<char>, k: int|
        called(p, n) && n.len() > 0 && 0 <= k < ignored.len() && #[trigger] ignored[k]
            == #[trigger] converted(n)
}

/// Process `j` is no thread, `pid` is its parent, and of all such processes it was started last;
/// where two were started at the same time, it has the larger identifier.
pub open spec fn last_started(ps: Seq<Process>, pid: u32, j: int) -> bool {
    &&& 0 <= j < ps.len()
    &&& !ps[j].is_thread
    &&& ps[j].parent == Some(pid)
    &&& forall|k: int|
        0 <= k < ps.len() && k != j && !(#[trigger] ps[k]).is_thread && ps[k].parent == Some(pid)
            ==> ps[k].start_time < ps[j].start_time || (ps[k].start_time == ps[j].start_time
            && ps[k].pid < ps[j].pid)
}

/// `chain` leads from the process of a window to what it shows: it starts with the first process
/// that has the window's identifier, and every process in it but the last is ignored in favour of
/// the child that it started last.
pub open spec fn leads(
    ps: Seq<Process>,
    ignored: Seq<Seq<char>>,
    pid: u32,
    chain: Seq<int>,
) -> bool {
    &&& chain.len() > 0
    &&& 0 <= chain[0] < ps.len()
    &&& ps[chain[0]].pid == pid
    &&& forall|k: int| 0 <= k < chain[0] ==> (#[trigger] ps[k]).pid != pid
    &&& forall|t: int|
        0 <= t < chain.len() - 1 ==> gives_way(ps[#[trigger] chain[t]], ignored) && last_started(
            ps,
            ps[chain[t]].pid,
            chain[t + 1],
        )
}

proof fn lemma_called(p: Process)
    ensures
        called(p, own_name(p)),
        forall|n: Seq<char>| #[trigger] called(p, n) ==> n == own_name(p),
{
}

proof fn lemma_found(p: Process)
    ensures
        found_as(p, Trace { name: converted(own_name(p)), cli: own_cli(p), pid: p.pid }),
{
    let args = contents(p.cmd@);
    lemma_called(p);
    if has_nul(args) {
        let (i, k) = choose|i: int, k: int|
            0 <= i < args.len() && 0 <= k < args[i].len() && #[trigger] args[i][k] == 0;
        assert(p.cmd@[i]@[k] == 0);
    } else {
        assert forall|i: int, k: int|
            0 <= i < p.cmd@.len() && 0 <= k < p.cmd@[i]@.len() implies #[trigger] p.cmd@[i]@[k]
            != 0 by {
            assert(args[i][k] == p.cmd@[i]@[k]);
        }
        assert(own_cli(p) == Some(command_line(args)));
    }
}

proof fn lemma_last_started(ps: Seq<Process>, pid: u32, j: int)
    requires
        last_started(ps, pid, j),
    ensures
        newest_child(ps, pid, ps.len() as int) == Some(j),
{
    newest_child_is_newest(ps, pid, ps.len() as int);
    assert(is_child(ps[j], pid));
    if let Some(i) = newest_child(ps, pid, ps.len() as int) {
        if i != j {
            assert(!newer(ps[j], ps[i]));
            assert(!ps[i].is_thread && ps[i].parent == Some(pid));
        }
    }
}

proof fn lemma_first_process(ps: Seq<Process>, pid: u32, from: int, i: int)
    requires
        0 <= from <= i < ps.len(),
        ps[i].pid == pid,
        forall|k: int| from <= k < i ==> (#[trigger] ps[k]).pid != pid,
    ensures
        process_at(ps, pid, from) == Some(i),
    decreases i - from,
{
    if from < i {
        assert(ps[from].pid != pid);
        lemma_first_process(ps, pid, from + 1, i);
    }
}

/// Following a chain from its position `t` on ends at its last process.
proof fn lemma_chain(
    ps: Seq<Process>,
    ignored: Seq<Seq<char>>,
    pid: u32,
    chain: Seq<int>,
    t: int,
    before: Trace,
    depth: nat,
)
    requires
        leads(ps, ignored, pid, chain),
        0 <= t < chain.len(),
        chain.len() - t <= depth,
        own_name(ps[chain.last()]).len() > 0,
        !gives_way(ps[chain.last()], ignored) || forall|k: int|
            0 <= k < ps.len() ==> (#[trigger] ps[k]).is_thread || ps[k].parent != Some(
                ps[chain.last()].pid,
            ),
    ensures
        found_as(ps[chain.last()], traced(ps, ignored, chain[t], before, depth)),
    decreases chain.len() - t,
{
    let p = ps[chain[t]];
    let here = Trace { name: converted(own_name(p)), cli: own_cli(p), pid: p.pid };
    lemma_called(p);
    if t < chain.len() - 1 {
        assert(gives_way(ps[chain[t]], ignored));
        let (n, k) = choose|n: Seq<char>, k: int|
            called(p, n) && n.len() > 0 && 0 <= k < ignored.len() && #[trigger] ignored[k]
                == #[trigger] converted(n);
        assert(n == own_name(p));
        assert(ignored.contains(here.name));
        lemma_last_started(ps, p.pid, chain[t + 1]);
        lemma_chain(ps, ignored, pid, chain, t + 1, here, (depth - 1) as nat);
    } else {
        lemma_found(p);
        if ignored.contains(here.name) {
            let k = choose|k: int| 0 <= k < ignored.len() && ignored[k] == here.name;
            assert(called(p, own_name(p)) && ignored[k] == converted(own_name(p)));
            assert(gives_way(p, ignored));
            newest_child_is_newest(ps, p.pid, ps.len() as int);
            if let Some(j) = newest_child(ps, p.pid, ps.len() as int) {
                assert(!ps[j].is_thread && ps[j].parent == Some(p.pid));
            }
        }
    }
}

/// Ignored processes give way to the child that they started last, whatever its command line: where
/// a chain of at most a hundred of them leads to a process that has a name and is not ignored, or
/// that is ignored but has no child that is not a thread, this process is what the window shows.
pub proof fn ignored_processes_give_way(
    ps: Seq<Process>,
    ignored: Seq<Seq<char>>,
    name: Seq<char>,
    pid: u32,
    chain: Seq<int>,
)
    requires
        leads(ps, ignored, pid, chain),
        chain.len() <= 100,
        exists|n: Seq<char>| #[trigger] called(ps[chain.last()], n) && n.len() > 0,
        !gives_way(ps[chain.last()], ignored) || forall|k: int|
            0 <= k < ps.len() ==> (#[trigger] ps[k]).is_thread || ps[k].parent != Some(
                ps[chain.last()].pid,
            ),
    ensures
        found_as(ps[chain.last()], process_of(ps, ignored, name, pid)),
{
    lemma_called(ps[chain.last()]);
    lemma_first_process(ps, pid, 0, chain[0]);
    lemma_chain(ps, ignored, pid, chain, 0, Trace { name, cli: None, pid }, 100);
}

/// A process that has neither a program nor a name of its own tells nothing: what is known before it
/// stays, which is the ignored process that started it or, for the window's own process, what the
/// window is called.
pub proof fn nameless_processes_tell_nothing(
    ps: Seq<Process>,
    ignored: Seq<Seq<char>>,
    name: Seq<char>,
    pid: u32,
    i: int,
)
    requires
        0 <= i < ps.len(),
        ps[i].pid == pid,
        forall|k: int| 0 <= k < i ==> (#[trigger] ps[k]).pid != pid,
    ensures
        called(ps[i], Seq::empty()) ==> process_of(ps, ignored, name, pid) == (Trace {
            name,
            cli: None,
            pid,
        }),
        forall|j: int|
            gives_way(ps[i], ignored) && #[trigger] last_started(ps, pid, j) && called(
                ps[j],
                Seq::empty(),
            ) ==> found_as(ps[i], process_of(ps, ignored, name, pid)),
{
    let start = Trace { name, cli: None, pid };
    lemma_first_process(ps, pid, 0, i);
    lemma_called(ps[i]);
    lemma_found(ps[i]);
    assert forall|j: int|
        gives_way(ps[i], ignored) && #[trigger] last_started(ps, pid, j) && called(
            ps[j],
            Seq::empty(),
        ) implies found_as(ps[i], process_of(ps, ignored, name, pid)) by {
        lemma_last_started(ps, pid, j);
        lemma_called(ps[j]);
        reveal_with_fuel(traced, 2);
    }
}

/// A window whose process is not known shows what it is called.
pub proof fn unknown_processes_keep_the_name(
    ps: Seq<Process>,
    ignored: Seq<Seq<char>>,
    name: Seq<char>,
    pid: u32,
)
    requires
        forall|k: int| 0 <= k < ps.len() ==> (#[trigger] ps[k]).pid != pid,
    ensures
        process_of(ps, ignored, name, pid) == (Trace { name, cli: None, pid }),
{
    lemma_process_at(ps, pid, 0);
}

} // verus!
