//! The job cache behind `#(...)`: at most one running shell command per
//! (client, tag, command) key, its last output line kept and reused. The
//! engine never spawns processes itself; it records the starts and kills it
//! decided on, and the surrounding loop performs them and feeds output back
//! in through `format_job_update` and `format_job_complete`.

use vstd::prelude::*;
use vstd::string::StringSliceAdditionalSpecFns;
use crate::bytes::{to_vec, bytes_eq, append_bytes, lit};

verus! {

/// One cache entry.
pub struct format_job {
    pub client: Option<usize>,
    pub tag: u32,
    pub cmd: Vec<u8>,
    /// The command text the last run actually used.
    pub expanded: Option<Vec<u8>>,
    /// When the job was last started.
    pub last: i64,
    /// Latest complete output line.
    pub out: Option<Vec<u8>>,
    pub updated: bool,
    /// A process is currently running for this entry.
    pub running: bool,
    /// A status line asked for this job, so updates should redraw.
    pub status: bool,
}

/// What the surrounding loop must do after a cache decision.
pub enum JobAction {
    Kill { client: Option<usize>, tag: u32, cmd: Vec<u8> },
    Start { client: Option<usize>, tag: u32, cmd: Vec<u8>, expanded: Vec<u8> },
}

pub struct JobCache {
    pub jobs: Vec<format_job>,
    pub actions: Vec<JobAction>,
}

/// Entry keys: same owner, same tag, same command text.
pub open spec fn job_key_matches(j: format_job, client: Option<usize>, tag: u32, cmd: Seq<u8>)
    -> bool {
    j.client == client && j.tag == tag && j.cmd@ == cmd
}

/// First entry with the key, if any.
pub open spec fn spec_find_job(jobs: Seq<format_job>, client: Option<usize>, tag: u32, cmd: Seq<u8>)
    -> Option<int>
    decreases jobs.len(),
{
    if jobs.len() == 0 {
        None
    } else if job_key_matches(jobs[0], client, tag, cmd) {
        Some(0)
    } else {
        match spec_find_job(jobs.skip(1), client, tag, cmd) {
            None => None,
            Some(i) => Some(i + 1),
        }
    }
}

pub proof fn lemma_find_job(jobs: Seq<format_job>, client: Option<usize>, tag: u32, cmd: Seq<u8>)
    ensures
        match spec_find_job(jobs, client, tag, cmd) {
            None => forall|i: int|
                0 <= i < jobs.len() ==> !job_key_matches(#[trigger] jobs[i], client, tag, cmd),
            Some(i) => 0 <= i < jobs.len() && job_key_matches(jobs[i], client, tag, cmd)
                && forall|j: int|
                    0 <= j < i ==> !job_key_matches(#[trigger] jobs[j], client, tag, cmd),
        },
    decreases jobs.len(),
{
    if jobs.len() > 0 && !job_key_matches(jobs[0], client, tag, cmd) {
        lemma_find_job(jobs.skip(1), client, tag, cmd);
        if spec_find_job(jobs.skip(1), client, tag, cmd) is None {
            assert forall|i: int|
                0 <= i < jobs.len() implies !job_key_matches(#[trigger] jobs[i], client, tag, cmd)
                by {
                if i > 0 {
                    assert(jobs.skip(1)[i - 1] == jobs[i]);
                }
            }
        } else {
            let i = spec_find_job(jobs.skip(1), client, tag, cmd).unwrap();
            assert(jobs.skip(1)[i] == jobs[i + 1]);
            assert forall|j: int|
                0 <= j < i + 1 implies !job_key_matches(#[trigger] jobs[j], client, tag, cmd) by {
                if j > 0 {
                    assert(jobs.skip(1)[j - 1] == jobs[j]);
                }
            }
        }
    }
}

impl JobCache {
    pub fn new() -> (r: Self)
        ensures
            r.jobs@.len() == 0,
            r.actions@.len() == 0,
    {
        JobCache { jobs: Vec::new(), actions: Vec::new() }
    }

    fn find(&self, client: Option<usize>, tag: u32, cmd: &[u8]) -> (r: Option<usize>)
        ensures
            match spec_find_job(self.jobs@, client, tag, cmd@) {
                Some(i) => r matches Some(k) && k as int == i && i < self.jobs@.len()
                    && job_key_matches(self.jobs@[i], client, tag, cmd@),
                None => r is None,
            },
    {
        let mut i: usize = 0;
        while i < self.jobs.len()
            invariant
                i <= self.jobs@.len(),
                forall|j: int|
                    0 <= j < i ==> !job_key_matches(#[trigger] self.jobs@[j], client, tag, cmd@),
            decreases self.jobs@.len() - i,
        {
            let j = &self.jobs[i];
            let same_client: bool = match (j.client, client) {
                (None, None) => true,
                (Some(a), Some(b)) => a == b,
                _ => false,
            };
            if same_client && j.tag == tag && bytes_eq(j.cmd.as_slice(), cmd) {
                proof {
                    lemma_find_job(self.jobs@, client, tag, cmd@);
                    match spec_find_job(self.jobs@, client, tag, cmd@) {
                        None => {
                            assert(job_key_matches(self.jobs@[i as int], client, tag, cmd@));
                        },
                        Some(k) => {
                            if k < i {
                                assert(!job_key_matches(self.jobs@[k], client, tag, cmd@));
                            } else if k > i {
                                assert(!job_key_matches(self.jobs@[i as int], client, tag, cmd@));
                            }
                        },
                    }
                }
                return Some(i);
            }
            i = i + 1;
        }
        proof {
            lemma_find_job(self.jobs@, client, tag, cmd@);
        }
        None
    }
}

/// The synthesized placeholder when a command could not be started.
pub open spec fn spec_didnt_start(cmd: Seq<u8>) -> Seq<u8> {
    ("<'").spec_bytes() + cmd + ("' didn't start>").spec_bytes()
}

/// The synthesized placeholder while a command has not produced output.
pub open spec fn spec_not_ready(cmd: Seq<u8>) -> Seq<u8> {
    ("<'").spec_bytes() + cmd + ("' not ready>").spec_bytes()
}

/// Build the spawn-failure placeholder, for the loop that runs the jobs to
/// feed back in when a start fails.
pub fn format_job_didnt_start(cmd: &[u8]) -> (r: Vec<u8>)
    ensures
        r@ == spec_didnt_start(cmd@),
{
    let mut v = lit("<'");
    append_bytes(&mut v, cmd);
    let t = lit("' didn't start>");
    append_bytes(&mut v, t.as_slice());
    proof {
        assert(v@ =~= spec_didnt_start(cmd@));
    }
    v
}

fn not_ready(cmd: &[u8]) -> (r: Vec<u8>)
    ensures
        r@ == spec_not_ready(cmd@),
{
    let mut v = lit("<'");
    append_bytes(&mut v, cmd);
    let t = lit("' not ready>");
    append_bytes(&mut v, t.as_slice());
    proof {
        assert(v@ =~= spec_not_ready(cmd@));
    }
    v
}

/// Look the key up (creating the entry if it is new), decide whether to
/// restart the job, record the kill and start actions, and return the output
/// to show: the cached line, or a synthesized placeholder. A start is issued
/// exactly when the expanded command changed, a refresh was forced, or no
/// job is running and none was started in the current second.
pub fn format_job_get_cached(
    cache: &mut JobCache,
    client: Option<usize>,
    tag: u32,
    cmd: &[u8],
    expanded: &[u8],
    now: i64,
    force_flag: bool,
    status_flag: bool,
) -> (out: Vec<u8>)
    ensures
        ({
            let pre_jobs = old(cache).jobs@;
            let found = spec_find_job(pre_jobs, client, tag, cmd@);
            let idx: int = match found {
                Some(i) => i,
                None => pre_jobs.len() as int,
            };
            let pre_running = match found {
                Some(i) => pre_jobs[i].running,
                None => false,
            };
            let pre_last: int = match found {
                Some(i) => pre_jobs[i].last as int,
                None => 0,
            };
            let pre_out = match found {
                Some(i) => pre_jobs[i].out,
                None => None::<Vec<u8>>,
            };
            let pre_status = match found {
                Some(i) => pre_jobs[i].status,
                None => false,
            };
            let changed = match found {
                Some(i) => match pre_jobs[i].expanded {
                    None => true,
                    Some(e) => e@ != expanded@,
                },
                None => true,
            };
            let force = changed || force_flag;
            let kill = force && pre_running;
            let start = force || (!pre_running && pre_last != now as int);
            let fresh = !start && pre_running && (now as int - pre_last > 1) && pre_out is None;
            let post = final(cache).jobs@[idx];
            &&& (found is Some ==> final(cache).jobs@.len() == pre_jobs.len())
            &&& (found is None ==> final(cache).jobs@.len() == pre_jobs.len() + 1)
            &&& forall|j: int|
                0 <= j < pre_jobs.len() && j != idx ==> final(cache).jobs@[j] == pre_jobs[j]
            &&& post.client == client && post.tag == tag && post.cmd@ == cmd@
            &&& (post.expanded matches Some(e) && e@ == expanded@)
            &&& post.running == (start || (pre_running && !kill))
            &&& post.last == (if start {
                now as int
            } else {
                pre_last
            })
            &&& post.status == (pre_status || status_flag)
            &&& (start ==> !post.updated)
            &&& (fresh ==> (post.out matches Some(o) && o@ == spec_not_ready(cmd@)))
            &&& (!fresh ==> post.out == pre_out)
            &&& out@ == (match post.out {
                Some(o) => o@,
                None => Seq::<u8>::empty(),
            })
            &&& final(cache).actions@.len() == old(cache).actions@.len() + (if kill {
                1int
            } else {
                0int
            }) + (if start {
                1int
            } else {
                0int
            })
            &&& forall|j: int|
                0 <= j < old(cache).actions@.len() ==> final(cache).actions@[j] == old(
                    cache,
                ).actions@[j]
            &&& (kill ==> (final(cache).actions@[old(cache).actions@.len() as int]
                matches JobAction::Kill { client: c2, tag: t2, cmd: k2 } && c2 == client && t2
                == tag && k2@ == cmd@))
            &&& (start ==> (final(cache).actions@.last() matches JobAction::Start {
                client: c2,
                tag: t2,
                cmd: k2,
                expanded: e2,
            } && c2 == client && t2 == tag && k2@ == cmd@ && e2@ == expanded@))
        }),
{
    let found = cache.find(client, tag, cmd);
    let idx: usize = match found {
        Some(i) => i,
        None => {
            let j = format_job {
                client,
                tag,
                cmd: to_vec(cmd),
                expanded: None,
                last: 0,
                out: None,
                updated: false,
                running: false,
                status: false,
            };
            let n = cache.jobs.len();
            cache.jobs.push(j);
            n
        },
    };
    let changed: bool = match &cache.jobs[idx].expanded {
        None => true,
        Some(e) => !bytes_eq(e.as_slice(), expanded),
    };
    let force = changed || force_flag;
    let was_running = cache.jobs[idx].running;
    let last = cache.jobs[idx].last;
    let kill = force && was_running;
    if kill {
        let a = JobAction::Kill { client, tag, cmd: to_vec(cmd) };
        cache.actions.push(a);
        cache.jobs[idx].running = false;
    }
    let start = force || (!was_running && last != now);
    cache.jobs[idx].expanded = Some(to_vec(expanded));
    if start {
        let a = JobAction::Start { client, tag, cmd: to_vec(cmd), expanded: to_vec(expanded) };
        cache.actions.push(a);
        cache.jobs[idx].running = true;
        cache.jobs[idx].last = now;
        cache.jobs[idx].updated = false;
    } else {
        let fresh = cache.jobs[idx].running && (now as i128) - (last as i128) > 1
            && cache.jobs[idx].out.is_none();
        if fresh {
            let nr = not_ready(cmd);
            cache.jobs[idx].out = Some(nr);
        }
    }
    if status_flag {
        cache.jobs[idx].status = true;
    }
    let r = match &cache.jobs[idx].out {
        Some(o) => to_vec(o.as_slice()),
        None => Vec::new(),
    };
    r
}

/// A running job produced a complete line: replace the cached output. The
/// result says whether the owning client's status line should redraw.
pub fn format_job_update(
    cache: &mut JobCache,
    client: Option<usize>,
    tag: u32,
    cmd: &[u8],
    line: &[u8],
    now: i64,
) -> (redraw: bool)
    ensures
        match spec_find_job(old(cache).jobs@, client, tag, cmd@) {
            None => *final(cache) == *old(cache) && !redraw,
            Some(i) => {
                let pre = old(cache).jobs@[i];
                let post = final(cache).jobs@[i];
                &&& final(cache).jobs@ == old(cache).jobs@.update(i, post)
                &&& final(cache).actions@ == old(cache).actions@
                &&& post.out matches Some(o) && o@ == line@
                &&& post.updated
                &&& redraw == (pre.status && pre.last != now)
                &&& post.last == (if redraw {
                    now as int
                } else {
                    pre.last as int
                })
                &&& post.cmd == pre.cmd && post.client == pre.client && post.tag == pre.tag
                    && post.expanded == pre.expanded && post.running == pre.running
                    && post.status == pre.status
            },
        },
{
    match cache.find(client, tag, cmd) {
        None => false,
        Some(i) => {
            cache.jobs[i].updated = true;
            cache.jobs[i].out = Some(to_vec(line));
            let redraw = cache.jobs[i].status && cache.jobs[i].last != now;
            if redraw {
                cache.jobs[i].last = now;
            }
            proof {
                assert(final(cache).jobs@ =~= old(cache).jobs@.update(
                    i as int,
                    final(cache).jobs@[i as int],
                ));
            }
            redraw
        },
    }
}

/// A job finished: keep its final buffered output if there is any, or if no
/// line ever arrived, and clear the running state.
pub fn format_job_complete(
    cache: &mut JobCache,
    client: Option<usize>,
    tag: u32,
    cmd: &[u8],
    buf: &[u8],
) -> (redraw: bool)
    ensures
        match spec_find_job(old(cache).jobs@, client, tag, cmd@) {
            None => *final(cache) == *old(cache) && !redraw,
            Some(i) => {
                let pre = old(cache).jobs@[i];
                let post = final(cache).jobs@[i];
                &&& final(cache).jobs@ == old(cache).jobs@.update(i, post)
                &&& final(cache).actions@ == old(cache).actions@
                &&& !post.running
                &&& post.out == (if buf@.len() > 0 || !pre.updated {
                    Some(post.out.unwrap())
                } else {
                    pre.out
                })
                &&& (buf@.len() > 0 || !pre.updated ==> (post.out matches Some(o) && o@ == buf@))
                &&& redraw == pre.status
                &&& !post.status
                &&& post.cmd == pre.cmd && post.client == pre.client && post.tag == pre.tag
                    && post.expanded == pre.expanded && post.last == pre.last && post.updated
                    == pre.updated
            },
        },
{
    match cache.find(client, tag, cmd) {
        None => false,
        Some(i) => {
            cache.jobs[i].running = false;
            if buf.len() > 0 || !cache.jobs[i].updated {
                cache.jobs[i].out = Some(to_vec(buf));
            }
            let redraw = cache.jobs[i].status;
            cache.jobs[i].status = false;
            proof {
                assert(final(cache).jobs@ =~= old(cache).jobs@.update(
                    i as int,
                    final(cache).jobs@[i as int],
                ));
            }
            redraw
        },
    }
}

/// Entries that survive a tidy pass from position `i` on: those not idle.
pub open spec fn spec_tidy_from(s: Seq<format_job>, now: int, force: bool, i: int)
    -> Seq<format_job>
    decreases s.len() - i,
{
    if i < 0 || i >= s.len() {
        Seq::empty()
    } else if spec_job_idle(s[i], now, force) {
        spec_tidy_from(s, now, force, i + 1)
    } else {
        seq![s[i]] + spec_tidy_from(s, now, force, i + 1)
    }
}

/// An entry is idle when its last start lies an hour or more back.
pub open spec fn spec_job_idle(j: format_job, now: int, force: bool) -> bool {
    force || (j.last <= now && now - j.last >= 3600)
}


/// Drop idle entries: those whose last start lies an hour or more back (or
/// every entry, when forced); a kill is recorded for each dropped entry that
/// still has a running job.
pub fn format_job_tidy(cache: &mut JobCache, now: i64, force: bool)
    ensures
        final(cache).jobs@ == spec_tidy_from(old(cache).jobs@, now as int, force, 0),
        final(cache).actions@.len() >= old(cache).actions@.len(),
{
    let ghost jobs0 = cache.jobs@;
    let total = cache.jobs.len();
    let mut stack: Vec<format_job> = Vec::new();
    while cache.jobs.len() > 0
        invariant
            jobs0 == old(cache).jobs@,
            cache.actions@ == old(cache).actions@,
            cache.jobs@.len() + stack@.len() == jobs0.len(),
            cache.jobs@ == jobs0.take(cache.jobs@.len() as int),
            forall|k: int|
                0 <= k < stack@.len() ==> stack@[k] == jobs0[jobs0.len() - 1 - k],
        decreases cache.jobs@.len(),
    {
        let ghost pre = cache.jobs@;
        let j = cache.jobs.pop().unwrap();
        proof {
            assert(pre == jobs0.take(pre.len() as int));
            assert(pre[pre.len() - 1] == jobs0[pre.len() - 1]);
            assert(cache.jobs@ =~= jobs0.take(cache.jobs@.len() as int));
        }
        stack.push(j);
    }
    let mut kept: Vec<format_job> = Vec::new();
    let mut i: usize = 0;
    let ghost n0 = jobs0.len();
    while stack.len() > 0
        invariant
            jobs0 == old(cache).jobs@,
            n0 == jobs0.len(),
            n0 == total as int,
            i <= n0,
            i + stack@.len() == n0,
            forall|k: int| 0 <= k < stack@.len() ==> stack@[k] == jobs0[n0 - 1 - k],
            cache.actions@.len() >= old(cache).actions@.len(),
            kept@ + spec_tidy_from(jobs0, now as int, force, i as int) == spec_tidy_from(
                jobs0,
                now as int,
                force,
                0,
            ),
        decreases stack@.len(),
    {
        let ghost prekept = kept@;
        let j = stack.pop().unwrap();
        proof {
            assert(j == jobs0[i as int]);
        }
        let idle = force || (j.last <= now && (now as i128) - (j.last as i128) >= 3600);
        if idle {
            if j.running {
                let a = JobAction::Kill { client: j.client, tag: j.tag, cmd: j.cmd };
                cache.actions.push(a);
            }
            proof {
                assert(kept@ + spec_tidy_from(jobs0, now as int, force, i + 1) =~= prekept
                    + spec_tidy_from(jobs0, now as int, force, i as int));
            }
        } else {
            kept.push(j);
            proof {
                assert(kept@ + spec_tidy_from(jobs0, now as int, force, i + 1) =~= prekept
                    + spec_tidy_from(jobs0, now as int, force, i as int));
            }
        }
        i = i + 1;
    }
    proof {
        assert(spec_tidy_from(jobs0, now as int, force, i as int) =~= Seq::<format_job>::empty());
        assert(kept@ =~= spec_tidy_from(jobs0, now as int, force, 0));
    }
    cache.jobs = kept;
}


/// Greatest newline position below `end`, or minus one.
pub open spec fn spec_last_nl_before(s: Seq<u8>, end: int) -> int
    decreases end,
{
    if end <= 0 {
        -1
    } else if s[end - 1] == '\n' as u8 {
        end - 1
    } else {
        spec_last_nl_before(s, end - 1)
    }
}

proof fn lemma_last_nl_bounds(s: Seq<u8>, end: int)
    requires
        0 <= end,
    ensures
        -1 <= spec_last_nl_before(s, end) < end || end == 0,
        -1 <= spec_last_nl_before(s, end) <= end - 1 || end == 0,
        end == 0 ==> spec_last_nl_before(s, end) == -1,
    decreases end,
{
    if end > 0 && s[end - 1] != '\n' as u8 {
        lemma_last_nl_bounds(s, end - 1);
    }
}

fn last_nl_before(s: &[u8], end: usize) -> (r: Option<usize>)
    requires
        end <= s@.len(),
    ensures
        match r {
            Some(j) => j as int == spec_last_nl_before(s@, end as int) && j < end,
            None => spec_last_nl_before(s@, end as int) == -1,
        },
{
    let mut e = end;
    while e > 0
        invariant
            e <= end <= s@.len(),
            spec_last_nl_before(s@, e as int) == spec_last_nl_before(s@, end as int),
        decreases e,
    {
        if s[e - 1] == '\n' as u8 {
            return Some(e - 1);
        }
        e = e - 1;
    }
    None
}

/// The text of the last newline-terminated line of a job's output, as the
/// update callback hands it in.
pub open spec fn spec_last_complete_line(s: Seq<u8>) -> Option<Seq<u8>> {
    let l = spec_last_nl_before(s, s.len() as int);
    if l < 0 {
        None
    } else {
        Some(s.subrange(spec_last_nl_before(s, l) + 1, l))
    }
}

pub fn last_complete_line(s: &[u8]) -> (r: Option<Vec<u8>>)
    ensures
        match r {
            Some(v) => spec_last_complete_line(s@) matches Some(l) && l == v@,
            None => spec_last_complete_line(s@) is None,
        },
{
    match last_nl_before(s, s.len()) {
        None => None,
        Some(l) => {
            proof {
                lemma_last_nl_bounds(s@, l as int);
            }
            let start = match last_nl_before(s, l) {
                Some(p) => p + 1,
                None => 0,
            };
            Some(crate::bytes::sub_vec(s, start, l))
        },
    }
}

/// What follows the last newline: the unterminated tail of a job's output,
/// as the completion callback hands it in.
pub open spec fn spec_trailing_fragment(s: Seq<u8>) -> Seq<u8> {
    s.subrange(spec_last_nl_before(s, s.len() as int) + 1, s.len() as int)
}

pub fn trailing_fragment(s: &[u8]) -> (r: Vec<u8>)
    ensures
        r@ == spec_trailing_fragment(s@),
{
    proof {
        lemma_last_nl_bounds(s@, s@.len() as int);
    }
    let start = match last_nl_before(s, s.len()) {
        Some(p) => p + 1,
        None => 0,
    };
    crate::bytes::sub_vec(s, start, s.len())
}

} // verus!
