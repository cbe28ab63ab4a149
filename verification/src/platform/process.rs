//! Process snapshots, process trees and the decisions of stopping a
//! set of processes.

use vstd::prelude::*;

use crate::text::{
    join_from, join_with, lines, lines_of, parse_u32, parse_u32_spec, split_whitespace, trim,
    trimmed, views, words,
};

verus! {

/// A request to start a process in the background.
#[derive(Debug, Clone, PartialEq, Eq)]
pub struct SpawnRequest {
    pub command: String,
    pub args: Vec<String>,
    pub cwd: Option<String>,
    pub env: Vec<(String, String)>,
}

/// One line of a process listing: the command line, the process id and
/// the parent's process id.
#[derive(Debug, Clone, PartialEq, Eq)]
pub struct ProcessSnapshot {
    pub command: String,
    pub pid: u32,
    pub ppid: u32,
}

/// What stopping a set of processes did.
#[derive(Debug, Clone, PartialEq, Eq)]
pub struct StopProcessResult {
    pub already_stopped: bool,
    pub forced_pids: Vec<u32>,
    pub matched_pids: Vec<u32>,
    pub remaining_pids: Vec<u32>,
    pub stopped_pids: Vec<u32>,
}

/// The fields of a `ps -o pid=,ppid=,command=` line: its first two words
/// parsed as process ids, and the remaining words joined by one space,
/// when there is at least one remaining word.
pub open spec fn ps_line_fields(line: Seq<char>) -> Option<(u32, u32, Seq<char>)> {
    let w = words(line);
    if w.len() >= 3 && parse_u32_spec(w[0]) is Some && parse_u32_spec(w[1]) is Some {
        Some((parse_u32_spec(w[0])->0, parse_u32_spec(w[1])->0, join_with(w.skip(2), seq![' '])))
    } else {
        None
    }
}

/// Parses one line of `ps -axo pid=,ppid=,command=` output.
pub fn parse_ps_line(line: &str) -> (r: Option<ProcessSnapshot>)
    ensures
        match r {
            Some(p) => ps_line_fields(line@) == Some((p.pid, p.ppid, p.command@)),
            None => ps_line_fields(line@) is None,
        },
{
    let parts = split_whitespace(line);
    proof {
        crate::text::lemma_words_shape(line@);
    }
    if parts.len() < 1 {
        return None;
    }
    let pid = match parse_u32(parts[0].as_str()) {
        Some(v) => v,
        None => return None,
    };
    if parts.len() < 2 {
        return None;
    }
    let ppid = match parse_u32(parts[1].as_str()) {
        Some(v) => v,
        None => return None,
    };
    let command = join_from(&parts, 2, " ");
    proof {
        assert(" "@ =~= seq![' ']) by {
            reveal_strlit(" ");
        }
        assert(views(parts@)[0] == parts@[0]@);
        assert(views(parts@)[1] == parts@[1]@);
    }
    if parts.len() < 3 {
        assert(views(parts@).skip(2).len() == 0);
        assert(command@.len() == 0);
        return None;
    }
    proof {
        let rest = views(parts@).skip(2);
        assert(rest.last() == words(line@)[words(line@).len() - 1]);
        crate::text::lemma_join_ends_with_last(rest, seq![' ']);
    }
    Some(ProcessSnapshot { command, pid, ppid })
}


/// `pid` is reached from `roots` by following parent-to-child edges of
/// `procs` at most `n` times.
pub open spec fn reached_within(procs: Seq<ProcessSnapshot>, roots: Seq<u32>, n: nat, pid: u32) -> bool
    decreases n,
{
    roots.contains(pid) || (n > 0 && exists|i: int|
        0 <= i < procs.len() && #[trigger] procs[i].pid == pid && reached_within(
            procs,
            roots,
            (n - 1) as nat,
            procs[i].ppid,
        ))
}

/// `pid` is one of `roots` or a descendant of one of them in `procs`.
pub open spec fn in_process_tree(procs: Seq<ProcessSnapshot>, roots: Seq<u32>, pid: u32) -> bool {
    exists|n: nat| reached_within(procs, roots, n, pid)
}

/// Every element is greater than all that follow it.
pub open spec fn strictly_descending(s: Seq<u32>) -> bool {
    forall|i: int, j: int| 0 <= i < j < s.len() ==> s[i] > s[j]
}

/// The process ids that `collect_process_tree_pids` may meet.
pub open spec fn pid_universe(procs: Seq<ProcessSnapshot>, roots: Seq<u32>) -> Seq<u32> {
    roots + procs.map_values(|p: ProcessSnapshot| p.pid)
}

/// `child` is the process id of some process in `procs` whose parent is
/// `parent`.
pub open spec fn is_child_pid(procs: Seq<ProcessSnapshot>, parent: u32, child: u32) -> bool {
    exists|j: int| 0 <= j < procs.len() && procs[j].ppid == parent && #[trigger] procs[j].pid == child
}

/// Whether `v` holds `x`.
pub fn vec_contains(v: &Vec<u32>, x: u32) -> (r: bool)
    ensures
        r == v@.contains(x),
{
    let mut i: usize = 0;
    while i < v.len()
        invariant
            i <= v@.len(),
            forall|k: int| 0 <= k < i ==> v@[k] != x,
        decreases v@.len() - i,
    {
        if v[i] == x {
            return true;
        }
        i = i + 1;
    }
    false
}

/// Inserts `x` into a strictly descending vector that lacks it.
fn insert_descending(v: &mut Vec<u32>, x: u32)
    requires
        strictly_descending(old(v)@),
        !old(v)@.contains(x),
    ensures
        strictly_descending(final(v)@),
        final(v)@.len() == old(v)@.len() + 1,
        forall|y: u32| final(v)@.contains(y) <==> (old(v)@.contains(y) || y == x),
{
    let mut i: usize = 0;
    while i < v.len() && v[i] > x
        invariant
            i <= v@.len(),
            forall|k: int| 0 <= k < i ==> v@[k] > x,
        decreases v@.len() - i,
    {
        i = i + 1;
    }
    let ghost before = v@;
    v.insert(i, x);
    assert forall|y: u32| v@.contains(y) <==> (before.contains(y) || y == x) by {
        if v@.contains(y) {
            let k = choose|k: int| 0 <= k < v@.len() && v@[k] == y;
            if k < i {
                assert(before[k] == y);
            } else if k > i {
                assert(before[k - 1] == y);
            }
        }
        if before.contains(y) {
            let k = choose|k: int| 0 <= k < before.len() && before[k] == y;
            if k < i {
                assert(v@[k] == y);
            } else {
                assert(v@[k + 1] == y);
            }
        }
        if y == x {
            assert(v@[i as int] == x);
        }
    }
}

proof fn lemma_nodup_subset_len(s: Seq<u32>, t: Seq<u32>)
    requires
        strictly_descending(s),
        forall|x: u32| s.contains(x) ==> t.contains(x),
    ensures
        s.len() <= t.len(),
{
    assert(s.no_duplicates()) by {
        assert forall|i: int, j: int| 0 <= i < s.len() && 0 <= j < s.len() && i != j implies s[i]
            != s[j] by {
            if i < j {
                assert(s[i] > s[j]);
            } else {
                assert(s[j] > s[i]);
            }
        }
    }
    s.unique_seq_to_set();
    t.lemma_cardinality_of_set();
    assert(s.to_set().subset_of(t.to_set()));
    vstd::set_lib::lemma_len_subset(s.to_set(), t.to_set());
}

proof fn lemma_tree_closed(
    procs: Seq<ProcessSnapshot>,
    roots: Seq<u32>,
    vis: Seq<u32>,
    n: nat,
    p: u32,
)
    requires
        forall|r: u32| roots.contains(r) ==> vis.contains(r),
        forall|j: int|
            0 <= j < procs.len() && vis.contains(#[trigger] procs[j].ppid) ==> vis.contains(
                procs[j].pid,
            ),
        reached_within(procs, roots, n, p),
    ensures
        vis.contains(p),
    decreases n,
{
    if !roots.contains(p) {
        let i = choose|i: int|
            0 <= i < procs.len() && #[trigger] procs[i].pid == p && reached_within(
                procs,
                roots,
                (n - 1) as nat,
                procs[i].ppid,
            );
        lemma_tree_closed(procs, roots, vis, (n - 1) as nat, procs[i].ppid);
    }
}

/// Appends to `queue` the children of `parent` that `visited` lacks.
fn push_children(
    processes: &[ProcessSnapshot],
    parent: u32,
    visited: &Vec<u32>,
    queue: &mut Vec<u32>,
)
    ensures
        final(queue)@.len() >= old(queue)@.len(),
        final(queue)@.take(old(queue)@.len() as int) == old(queue)@,
        forall|k: int|
            old(queue)@.len() <= k < final(queue)@.len() ==> is_child_pid(
                processes@,
                parent,
                #[trigger] final(queue)@[k],
            ),
        forall|j: int|
            0 <= j < processes@.len() && #[trigger] processes@[j].ppid == parent ==> (visited@.contains(
                processes@[j].pid,
            ) || final(queue)@.contains(processes@[j].pid)),
{
    let ghost start = queue@;
    let mut j: usize = 0;
    while j < processes.len()
        invariant
            j <= processes@.len(),
            queue@.len() >= start.len(),
            queue@.take(start.len() as int) == start,
            forall|k: int|
                start.len() <= k < queue@.len() ==> is_child_pid(
                    processes@,
                    parent,
                    #[trigger] queue@[k],
                ),
            forall|jj: int|
                0 <= jj < j && #[trigger] processes@[jj].ppid == parent ==> (visited@.contains(
                    processes@[jj].pid,
                ) || queue@.contains(processes@[jj].pid)),
        decreases processes@.len() - j,
    {
        let process = &processes[j];
        if process.ppid == parent && !vec_contains(visited, process.pid) {
            let ghost before = queue@;
            queue.push(process.pid);
            assert(queue@.take(start.len() as int) =~= before.take(start.len() as int));
            assert(queue@[before.len() as int] == process.pid);
            assert forall|jj: int|
                0 <= jj < j + 1 && #[trigger] processes@[jj].ppid == parent implies (visited@.contains(
                processes@[jj].pid,
            ) || queue@.contains(processes@[jj].pid)) by {
                if jj < j && !visited@.contains(processes@[jj].pid) {
                    let k = choose|k: int| 0 <= k < before.len() && before[k] == processes@[jj].pid;
                    assert(queue@[k] == before[k]);
                }
            }
            assert forall|k: int| start.len() <= k < queue@.len() implies is_child_pid(
                processes@,
                parent,
                #[trigger] queue@[k],
            ) by {
                if k < before.len() {
                    assert(queue@[k] == before[k]);
                } else {
                    assert(processes@[j as int].pid == queue@[k]);
                }
            }
        }
        j = j + 1;
    }
}

/// The process ids of `root_pids` and all their descendants in
/// `processes`, children before parents: each id once, in descending
/// order.
pub fn collect_process_tree_pids(processes: &[ProcessSnapshot], root_pids: &[u32]) -> (r: Vec<u32>)
    ensures
        strictly_descending(r@),
        forall|pid: u32| r@.contains(pid) <==> in_process_tree(processes@, root_pids@, pid),
{
    let ghost procs = processes@;
    let ghost roots = root_pids@;
    let ghost universe = pid_universe(procs, roots);
    let mut queue: Vec<u32> = Vec::new();
    let mut k: usize = 0;
    while k < root_pids.len()
        invariant
            k <= roots.len(),
            roots == root_pids@,
            queue@ == roots.take(k as int),
        decreases roots.len() - k,
    {
        queue.push(root_pids[k]);
        k = k + 1;
        assert(queue@ =~= roots.take(k as int));
    }
    assert(queue@ =~= roots);
    assert forall|i: int| 0 <= i < queue@.len() implies in_process_tree(
        procs,
        roots,
        #[trigger] queue@[i],
    ) && universe.contains(queue@[i]) by {
        let x = queue@[i];
        assert(roots[i] == x);
        assert(roots.contains(x));
        assert(reached_within(procs, roots, 0, x));
        assert(in_process_tree(procs, roots, x));
        assert(universe[i] == x);
        assert(universe.contains(x));
    }
    let mut head: usize = 0;
    let mut visited: Vec<u32> = Vec::new();
    while head < queue.len()
        invariant
            procs == processes@,
            roots == root_pids@,
            universe == pid_universe(procs, roots),
            head <= queue@.len(),
            roots.len() <= queue@.len(),
            queue@.take(roots.len() as int) == roots,
            forall|i: int| 0 <= i < head ==> visited@.contains(#[trigger] queue@[i]),
            forall|i: int|
                0 <= i < queue@.len() ==> in_process_tree(procs, roots, #[trigger] queue@[i])
                    && universe.contains(queue@[i]),
            forall|x: u32| visited@.contains(x) ==> queue@.contains(x),
            strictly_descending(visited@),
            forall|j: int|
                0 <= j < procs.len() && visited@.contains(#[trigger] procs[j].ppid) ==> (
                visited@.contains(procs[j].pid) || queue@.contains(procs[j].pid)),
        decreases universe.len() - visited@.len(), queue@.len() - head,
    {
        proof {
            lemma_nodup_subset_len(visited@, universe);
        }
        let pid = queue[head];
        head = head + 1;
        if vec_contains(&visited, pid) {
            continue;
        }
        let ghost vis_before = visited@;
        let ghost queue_before = queue@;
        insert_descending(&mut visited, pid);
        push_children(processes, pid, &visited, &mut queue);
        proof {
            assert forall|i: int| 0 <= i < queue@.len() implies #[trigger] queue@[i] == queue_before[i]
                || i >= queue_before.len() by {
                if i < queue_before.len() {
                    assert(queue@.take(queue_before.len() as int)[i] == queue_before[i]);
                }
            }
            assert(queue@.take(roots.len() as int) =~= roots) by {
                assert forall|i: int| 0 <= i < roots.len() implies queue@[i] == roots[i] by {
                    assert(queue@[i] == queue_before[i]);
                    assert(queue_before.take(roots.len() as int)[i] == roots[i]);
                }
            }
            assert forall|x: u32| queue_before.contains(x) implies queue@.contains(x) by {
                let i = choose|i: int| 0 <= i < queue_before.len() && queue_before[i] == x;
                assert(queue@[i] == queue_before[i]);
            }
            assert(queue_before[head - 1] == pid);
            assert(in_process_tree(procs, roots, pid));
            let n = choose|n: nat| reached_within(procs, roots, n, pid);
            assert(reached_within(procs, roots, n, pid));
            assert forall|i: int| 0 <= i < queue@.len() implies in_process_tree(
                procs,
                roots,
                #[trigger] queue@[i],
            ) && universe.contains(queue@[i]) by {
                let x = queue@[i];
                if i < queue_before.len() {
                    assert(queue@[i] == queue_before[i]);
                } else {
                    assert(is_child_pid(procs, pid, queue@[i]));
                    let j = choose|j: int|
                        0 <= j < procs.len() && procs[j].ppid == pid && #[trigger] procs[j].pid
                            == queue@[i];
                    assert(reached_within(procs, roots, n + 1, x));
                    assert(universe[roots.len() + j] == x);
                }
            }
            assert forall|i: int| 0 <= i < head implies visited@.contains(#[trigger] queue@[i]) by {
                assert(queue@[i] == queue_before[i]);
                if i < head - 1 {
                    assert(vis_before.contains(queue_before[i]));
                }
            }
            assert forall|x: u32| visited@.contains(x) implies queue@.contains(x) by {
                if x != pid {
                    assert(vis_before.contains(x));
                    assert(queue_before.contains(x));
                } else {
                    assert(queue@[head - 1] == queue_before[head - 1]);
                }
            }
            assert forall|j: int|
                0 <= j < procs.len() && visited@.contains(#[trigger] procs[j].ppid) implies (
                visited@.contains(procs[j].pid) || queue@.contains(procs[j].pid)) by {
                let v = procs[j].ppid;
                if v != pid {
                    assert(vis_before.contains(v));
                    if !vis_before.contains(procs[j].pid) {
                        assert(queue_before.contains(procs[j].pid));
                    }
                }
            }
            lemma_nodup_subset_len(visited@, universe);
        }
    }
    proof {
        assert forall|r: u32| roots.contains(r) implies visited@.contains(r) by {
            let i = choose|i: int| 0 <= i < roots.len() && roots[i] == r;
            assert(queue@.take(roots.len() as int)[i] == roots[i]);
        }
        assert forall|j: int|
            0 <= j < procs.len() && visited@.contains(#[trigger] procs[j].ppid) implies visited@.contains(
            procs[j].pid,
        ) by {
            if queue@.contains(procs[j].pid) {
                let i = choose|i: int| 0 <= i < queue@.len() && queue@[i] == procs[j].pid;
            }
        }
        assert forall|pid: u32| in_process_tree(procs, roots, pid) implies visited@.contains(pid) by {
            let n = choose|n: nat| reached_within(procs, roots, n, pid);
            lemma_tree_closed(procs, roots, visited@, n, pid);
        }
    }
    visited
}


/// The snapshots of the lines of a listing that parse, in order.
pub open spec fn ps_snapshots(ls: Seq<Seq<char>>) -> Seq<(u32, u32, Seq<char>)>
    decreases ls.len(),
{
    if ls.len() == 0 {
        Seq::empty()
    } else {
        let prev = ps_snapshots(ls.drop_last());
        match ps_line_fields(ls.last()) {
            Some(f) => prev.push(f),
            None => prev,
        }
    }
}

pub open spec fn snapshot_fields(ps: Seq<ProcessSnapshot>) -> Seq<(u32, u32, Seq<char>)> {
    ps.map_values(|p: ProcessSnapshot| (p.pid, p.ppid, p.command@))
}

/// The processes of a `ps -axo pid=,ppid=,command=` listing: every line
/// that parses, in order.
pub fn parse_ps_output(output: &str) -> (r: Vec<ProcessSnapshot>)
    ensures
        snapshot_fields(r@) == ps_snapshots(lines_of(output@)),
{
    let ls = lines(output);
    let ghost lv = views(ls@);
    let mut r: Vec<ProcessSnapshot> = Vec::new();
    let mut i: usize = 0;
    while i < ls.len()
        invariant
            lv == views(ls@),
            i <= ls@.len(),
            snapshot_fields(r@) == ps_snapshots(lv.take(i as int)),
        decreases ls@.len() - i,
    {
        let ghost before = r@;
        assert(lv.take(i + 1).drop_last() =~= lv.take(i as int));
        assert(lv.take(i + 1).last() == ls@[i as int]@);
        match parse_ps_line(ls[i].as_str()) {
            Some(p) => {
                r.push(p);
                assert(snapshot_fields(r@) =~= snapshot_fields(before).push(
                    (p.pid, p.ppid, p.command@),
                ));
            },
            None => {},
        }
        i = i + 1;
    }
    assert(lv.take(ls@.len() as int) =~= lv);
    r
}

/// Whether the `state=` column of `ps` marks a zombie: after trimming it
/// begins with `Z`.
pub fn is_zombie_state(state: &str) -> (r: bool)
    ensures
        r == (trimmed(state@).len() > 0 && trimmed(state@)[0] == 'Z'),
{
    let t = trim(state);
    t.unicode_len() > 0 && t.as_str().get_char(0) == 'Z'
}

/// The distinct ids of `pids`, in descending order.
pub fn unique_descending(pids: &[u32]) -> (r: Vec<u32>)
    ensures
        strictly_descending(r@),
        forall|x: u32| r@.contains(x) <==> pids@.contains(x),
{
    let mut r: Vec<u32> = Vec::new();
    let mut i: usize = 0;
    while i < pids.len()
        invariant
            i <= pids@.len(),
            strictly_descending(r@),
            forall|x: u32| r@.contains(x) <==> pids@.take(i as int).contains(x),
        decreases pids@.len() - i,
    {
        let x = pids[i];
        let ghost t1 = pids@.take(i + 1);
        let ghost t0 = pids@.take(i as int);
        assert forall|y: u32| t1.contains(y) <==> (t0.contains(y) || y == x) by {
            if t1.contains(y) {
                let k = choose|k: int| 0 <= k < t1.len() && t1[k] == y;
                if k < i {
                    assert(t0[k] == y);
                }
            }
            if t0.contains(y) {
                let k = choose|k: int| 0 <= k < t0.len() && t0[k] == y;
                assert(t1[k] == y);
            }
            if y == x {
                assert(t1[i as int] == y);
            }
        }
        if !vec_contains(&r, x) {
            insert_descending(&mut r, x);
        }
        i = i + 1;
    }
    assert(pids@.take(pids@.len() as int) =~= pids@);
    r
}

/// The first decision of stopping processes.
pub enum StopPlan {
    /// Nothing to stop.
    AlreadyStopped(StopProcessResult),
    /// Send `TERM` to these ids, then wait for them.
    Terminate(Vec<u32>),
}

/// What follows the `TERM` wait.
pub enum AfterTerm {
    /// Everything exited.
    Stopped(StopProcessResult),
    /// Send `KILL` to these ids, then wait for them.
    Kill(Vec<u32>),
}

/// Plans stopping `pids`: their distinct ids in descending order get
/// `TERM`; with none, they are reported as already stopped.
pub fn plan_stop(pids: &[u32]) -> (r: StopPlan)
    ensures
        pids@.len() == 0 ==> (r matches StopPlan::AlreadyStopped(res) && res.already_stopped
            && res.forced_pids@.len() == 0 && res.matched_pids@.len() == 0
            && res.remaining_pids@.len() == 0 && res.stopped_pids@.len() == 0),
        pids@.len() > 0 ==> (r matches StopPlan::Terminate(unique) && unique@.len() > 0
            && strictly_descending(unique@) && forall|x: u32|
            unique@.contains(x) <==> pids@.contains(x)),
{
    let unique = unique_descending(pids);
    if unique.len() == 0 {
        proof {
            if pids@.len() > 0 {
                assert(pids@.contains(pids@[0]));
            }
        }
        return StopPlan::AlreadyStopped(
            StopProcessResult {
                already_stopped: true,
                forced_pids: Vec::new(),
                matched_pids: Vec::new(),
                remaining_pids: Vec::new(),
                stopped_pids: Vec::new(),
            },
        );
    }
    proof {
        assert(unique@.contains(unique@[0]));
    }
    StopPlan::Terminate(unique)
}

fn copy_u32s(v: &Vec<u32>) -> (r: Vec<u32>)
    ensures
        r@ == v@,
{
    let mut r: Vec<u32> = Vec::new();
    let mut i: usize = 0;
    while i < v.len()
        invariant
            i <= v@.len(),
            r@ == v@.take(i as int),
        decreases v@.len() - i,
    {
        r.push(v[i]);
        i = i + 1;
        assert(r@ =~= v@.take(i as int));
    }
    assert(v@.take(v@.len() as int) =~= v@);
    r
}

/// The ids of `pids` whose liveness answer in `alive` is `true`, in order.
pub open spec fn keep_alive(pids: Seq<u32>, alive: Seq<bool>) -> Seq<u32>
    decreases pids.len(),
{
    if pids.len() == 0 {
        Seq::empty()
    } else {
        let prev = keep_alive(pids.drop_last(), alive);
        if alive[pids.len() - 1] {
            prev.push(pids.last())
        } else {
            prev
        }
    }
}

/// `a` is `b` with some elements left out, the rest in their order.
pub open spec fn is_subsequence(a: Seq<u32>, b: Seq<u32>) -> bool
    decreases b.len(),
{
    if a.len() == 0 {
        true
    } else if b.len() == 0 {
        false
    } else if a.last() == b.last() {
        is_subsequence(a.drop_last(), b.drop_last())
    } else {
        is_subsequence(a, b.drop_last())
    }
}

/// The ids among `pids` that are still alive, given one liveness answer
/// per id.
pub fn alive_ids(pids: &[u32], alive: &[bool]) -> (r: Vec<u32>)
    requires
        pids@.len() == alive@.len(),
    ensures
        r@ == keep_alive(pids@, alive@),
{
    let mut r: Vec<u32> = Vec::new();
    let mut i: usize = 0;
    while i < pids.len()
        invariant
            pids@.len() == alive@.len(),
            i <= pids@.len(),
            r@ == keep_alive(pids@.take(i as int), alive@),
        decreases pids@.len() - i,
    {
        assert(pids@.take(i + 1).drop_last() =~= pids@.take(i as int));
        assert(pids@.take(i + 1).last() == pids@[i as int]);
        if alive[i] {
            r.push(pids[i]);
        }
        i = i + 1;
    }
    assert(pids@.take(pids@.len() as int) =~= pids@);
    r
}

/// The decision after `TERM` went to `unique` and the wait ended with the
/// liveness answers `alive`, one per id: done when none is alive,
/// otherwise `KILL` the ones still alive.
pub fn after_term(unique: Vec<u32>, alive: &[bool]) -> (r: AfterTerm)
    requires
        unique@.len() == alive@.len(),
    ensures
        keep_alive(unique@, alive@).len() == 0 ==> (r matches AfterTerm::Stopped(res)
            && !res.already_stopped && res.forced_pids@.len() == 0 && res.matched_pids@
            == unique@ && res.remaining_pids@.len() == 0 && res.stopped_pids@ == unique@),
        keep_alive(unique@, alive@).len() > 0 ==> (r matches AfterTerm::Kill(k) && k@
            == keep_alive(unique@, alive@)),
{
    let remaining = alive_ids(unique.as_slice(), alive);
    if remaining.len() == 0 {
        let stopped = copy_u32s(&unique);
        return AfterTerm::Stopped(
            StopProcessResult {
                already_stopped: false,
                forced_pids: Vec::new(),
                matched_pids: unique,
                remaining_pids: Vec::new(),
                stopped_pids: stopped,
            },
        );
    }
    AfterTerm::Kill(remaining)
}

/// The elements of `s` that `r` lacks, in order.
pub open spec fn without(s: Seq<u32>, r: Seq<u32>) -> Seq<u32>
    decreases s.len(),
{
    if s.len() == 0 {
        Seq::empty()
    } else {
        let prev = without(s.drop_last(), r);
        if r.contains(s.last()) {
            prev
        } else {
            prev.push(s.last())
        }
    }
}

/// The result after `KILL` went to `forced` and the second wait ended
/// with the liveness answers `alive`, one per forced id: the forced ids
/// still alive remain, and every matched id that does not remain counts
/// as stopped.
pub fn after_kill(unique: Vec<u32>, forced: Vec<u32>, alive: &[bool]) -> (r: StopProcessResult)
    requires
        forced@.len() == alive@.len(),
    ensures
        !r.already_stopped,
        r.forced_pids@ == forced@,
        r.matched_pids@ == unique@,
        r.remaining_pids@ == keep_alive(forced@, alive@),
        r.stopped_pids@ == without(unique@, keep_alive(forced@, alive@)),
{
    let remaining = alive_ids(forced.as_slice(), alive);
    let mut stopped: Vec<u32> = Vec::new();
    let mut i: usize = 0;
    while i < unique.len()
        invariant
            i <= unique@.len(),
            stopped@ == without(unique@.take(i as int), remaining@),
        decreases unique@.len() - i,
    {
        assert(unique@.take(i + 1).drop_last() =~= unique@.take(i as int));
        assert(unique@.take(i + 1).last() == unique@[i as int]);
        if !vec_contains(&remaining, unique[i]) {
            stopped.push(unique[i]);
        }
        i = i + 1;
    }
    assert(unique@.take(unique@.len() as int) =~= unique@);
    StopProcessResult {
        already_stopped: false,
        forced_pids: forced,
        matched_pids: unique,
        remaining_pids: remaining,
        stopped_pids: stopped,
    }
}

/// Membership in `without(s, r)`.
pub proof fn lemma_without_contains(s: Seq<u32>, r: Seq<u32>, x: u32)
    ensures
        without(s, r).contains(x) <==> (s.contains(x) && !r.contains(x)),
    decreases s.len(),
{
    if s.len() > 0 {
        lemma_without_contains(s.drop_last(), r, x);
        assert(s =~= s.drop_last().push(s.last()));
        if s.contains(x) && !s.drop_last().contains(x) {
            let k = choose|k: int| 0 <= k < s.len() && s[k] == x;
            if k < s.len() - 1 {
                assert(s.drop_last()[k] == x);
            }
        }
        if s.drop_last().contains(x) {
            let k = choose|k: int| 0 <= k < s.drop_last().len() && s.drop_last()[k] == x;
            assert(s[k] == x);
        }
        let w = without(s, r);
        let p = without(s.drop_last(), r);
        if !r.contains(s.last()) {
            if w.contains(x) && !p.contains(x) {
                let k = choose|k: int| 0 <= k < w.len() && w[k] == x;
                if k < p.len() {
                    assert(p[k] == x);
                }
            }
            if p.contains(x) {
                let k = choose|k: int| 0 <= k < p.len() && p[k] == x;
                assert(w[k] == x);
            }
            if x == s.last() {
                assert(w[p.len() as int] == x);
            }
        }
    }
}

/// After a `KILL`, the matched processes split into those that stopped
/// and those that remain: each matched id is in exactly one of the two,
/// and nothing else is in either, provided the remaining ids are among
/// the matched ones.
pub proof fn law_stop_result_partitions(unique: Seq<u32>, remaining: Seq<u32>)
    requires
        forall|x: u32| remaining.contains(x) ==> unique.contains(x),
    ensures
        forall|x: u32|
            unique.contains(x) <==> (#[trigger] without(unique, remaining).contains(x)
                || remaining.contains(x)),
        forall|x: u32|
            !(#[trigger] without(unique, remaining).contains(x) && remaining.contains(x)),
{
    assert forall|x: u32|
        unique.contains(x) <==> (#[trigger] without(unique, remaining).contains(x)
            || remaining.contains(x)) by {
        lemma_without_contains(unique, remaining, x);
    }
    assert forall|x: u32|
        !(#[trigger] without(unique, remaining).contains(x) && remaining.contains(x)) by {
        lemma_without_contains(unique, remaining, x);
    }
}

proof fn lemma_keep_alive_subsequence(pids: Seq<u32>, alive: Seq<bool>)
    ensures
        is_subsequence(keep_alive(pids, alive), pids),
    decreases pids.len(),
{
    if pids.len() > 0 {
        lemma_keep_alive_subsequence(pids.drop_last(), alive);
        let prev = keep_alive(pids.drop_last(), alive);
        if alive[pids.len() - 1] {
            assert(prev.push(pids.last()).drop_last() =~= prev);
        } else {
            lemma_subsequence_of_prefix(prev, pids);
        }
    }
}

proof fn lemma_subsequence_of_prefix(a: Seq<u32>, b: Seq<u32>)
    requires
        b.len() > 0,
        is_subsequence(a, b.drop_last()),
    ensures
        is_subsequence(a, b),
    decreases b.len(), 0int,
{
    if a.len() > 0 && a.last() == b.last() {
        lemma_subsequence_shrink(a, b.drop_last());
    }
}

proof fn lemma_subsequence_shrink(a: Seq<u32>, b: Seq<u32>)
    requires
        a.len() > 0,
        is_subsequence(a, b),
    ensures
        is_subsequence(a.drop_last(), b),
    decreases b.len(), 1int,
{
    if b.len() > 0 {
        if a.last() == b.last() {
            if a.drop_last().len() > 0 {
                lemma_subsequence_shrink(a.drop_last(), b.drop_last());
                lemma_subsequence_of_prefix(a.drop_last(), b);
            }
        } else {
            lemma_subsequence_shrink(a, b.drop_last());
            if a.drop_last().len() > 0 {
                lemma_subsequence_of_prefix(a.drop_last(), b);
            }
        }
    }
}

proof fn lemma_subsequence_contains(a: Seq<u32>, b: Seq<u32>, x: u32)
    requires
        is_subsequence(a, b),
        a.contains(x),
    ensures
        b.contains(x),
    decreases b.len(),
{
    if b.len() == 0 {
        assert(a.len() == 0);
    } else if a.last() == b.last() && x == a.last() {
        assert(b[b.len() - 1] == x);
    } else {
        if a.last() == b.last() {
            let k = choose|k: int| 0 <= k < a.len() && a[k] == x;
            assert(k != a.len() - 1);
            assert(a.drop_last()[k] == x);
            lemma_subsequence_contains(a.drop_last(), b.drop_last(), x);
        } else {
            lemma_subsequence_contains(a, b.drop_last(), x);
        }
        let k = choose|k: int| 0 <= k < b.drop_last().len() && b.drop_last()[k] == x;
        assert(b[k] == x);
    }
}

/// What stopping reports, given the liveness answers of the two waits:
/// the forced ids are the matched ids still alive after `TERM`, in order,
/// so an ordered part of the matched ones; the remaining ids are the forced
/// ids still alive after `KILL`, an ordered part of the forced ones; and
/// every matched id is either stopped or remaining, never both.
pub proof fn law_stop_ids_nest(unique: Seq<u32>, after_term: Seq<bool>, after_kill: Seq<bool>)
    requires
        after_term.len() == unique.len(),
        after_kill.len() == keep_alive(unique, after_term).len(),
    ensures
        is_subsequence(keep_alive(unique, after_term), unique),
        is_subsequence(
            keep_alive(keep_alive(unique, after_term), after_kill),
            keep_alive(unique, after_term),
        ),
        forall|x: u32|
            unique.contains(x) <==> (#[trigger] without(
                unique,
                keep_alive(keep_alive(unique, after_term), after_kill),
            ).contains(x) || keep_alive(keep_alive(unique, after_term), after_kill).contains(x)),
        forall|x: u32|
            !(#[trigger] without(
                unique,
                keep_alive(keep_alive(unique, after_term), after_kill),
            ).contains(x) && keep_alive(keep_alive(unique, after_term), after_kill).contains(x)),
{
    let forced = keep_alive(unique, after_term);
    let remaining = keep_alive(forced, after_kill);
    lemma_keep_alive_subsequence(unique, after_term);
    lemma_keep_alive_subsequence(forced, after_kill);
    assert forall|x: u32| remaining.contains(x) implies unique.contains(x) by {
        lemma_subsequence_contains(remaining, forced, x);
        lemma_subsequence_contains(forced, unique, x);
    }
    law_stop_result_partitions(unique, remaining);
}

} // verus!
