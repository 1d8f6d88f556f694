use vstd::prelude::*;
use std::collections::VecDeque;
use crate::config::{FilesystemRetryAgentConfig, MemoryRetryAgentConfig};
use crate::hub::Mail;

verus! {

/// The retry delay in milliseconds, for a delay given in seconds; it stops
/// at the largest `u64`.
pub open spec fn delay_ms(delay_s: u64) -> int {
    if delay_s * 1000 > u64::MAX { u64::MAX as int } else { delay_s * 1000 }
}

/// The instant at which a mail queued at `queued_at` falls due; it stops at
/// the largest `u64`.
pub open spec fn due_time(queued_at: u64, delay_s: u64) -> int {
    if queued_at + delay_ms(delay_s) > u64::MAX { u64::MAX as int } else { queued_at + delay_ms(delay_s) }
}

/// A mail that failed at `destination`, waiting for its next attempt. Times
/// are milliseconds since the epoch.
#[derive(Debug, Clone)]
pub struct RetryEntry {
    pub queued_at: u64,
    pub due: u64,
    pub destination: String,
    pub mail: Mail,
}

/// What the worker of the retry agent observed.
#[derive(Debug, Clone)]
pub enum RetryEvent {
    /// A second went by with no message.
    Tick,
    /// A destination asks for a mail to be retried.
    QueueMail { destination: String, mail: Mail },
    /// Every sender is gone: the hub is shutting down.
    Disconnected,
}

/// What the worker does next.
#[derive(Debug, Clone)]
pub enum RetryStep {
    /// Hand these mails back to the hub, in this order, and wait again.
    Resend(Vec<RetryEntry>),
    /// Stop; `lost` mails were still queued and are dropped.
    Stop { lost: usize },
}

/// Every entry due no later than its successor.
pub open spec fn sorted_by_due(q: Seq<RetryEntry>) -> bool {
    forall|i: int, j: int| 0 <= i < j < q.len() ==> (#[trigger] q[i]).due <= (#[trigger] q[j]).due
}

/// Where an entry due at `due` goes in the queue `q`: after every entry
/// due no later, before those due later.
pub open spec fn insertion_point(q: Seq<RetryEntry>, due: int) -> int
    decreases q.len(),
{
    if q.len() == 0 {
        0
    } else if q.last().due <= due {
        q.len() as int
    } else {
        insertion_point(q.drop_last(), due)
    }
}

/// The in-memory retry agent: the failed mails, ordered by due time, those
/// due at the same time in the order they came.
pub struct MemoryRetryAgent {
    pub config: MemoryRetryAgentConfig,
    pub queue: VecDeque<RetryEntry>,
}

impl MemoryRetryAgent {
    /// Every queued entry falls due one delay after it was queued, and the
    /// queue is ordered by due time.
    pub open spec fn wf(&self) -> bool {
        &&& forall|i: int| 0 <= i < self.queue@.len() ==>
            (#[trigger] self.queue@[i]).due == due_time(self.queue@[i].queued_at, self.config.delay)
        &&& sorted_by_due(self.queue@)
    }

    pub fn new(config: &MemoryRetryAgentConfig) -> (r: MemoryRetryAgent)
        ensures
            r.wf(),
            r.config == *config,
            r.queue@.len() == 0,
    {
        MemoryRetryAgent { config: MemoryRetryAgentConfig { delay: config.delay }, queue: VecDeque::new() }
    }

    /// When a mail queued at `now` falls due.
    pub fn due_at(&self, now: u64) -> (r: u64)
        ensures
            r == due_time(now, self.config.delay),
    {
        let delay: u64 = match self.config.delay.checked_mul(1000) {
            Some(d) => d,
            None => u64::MAX,
        };
        now.saturating_add(delay)
    }

    fn insert_entry(&mut self, e: RetryEntry) -> (p: usize)
        requires
            old(self).wf(),
            e.due == due_time(e.queued_at, old(self).config.delay),
        ensures
            final(self).wf(),
            final(self).config == old(self).config,
            p <= old(self).queue@.len(),
            p == insertion_point(old(self).queue@, e.due as int),
            final(self).queue@ == old(self).queue@.insert(p as int, e),
    {
        let ghost q = self.queue@;
        let mut pos: usize = self.queue.len();
        proof {
            assert(q.subrange(0, q.len() as int) =~= q);
        }
        while pos > 0 && self.queue[pos - 1].due > e.due
            invariant
                self.queue@ == q,
                self.config == old(self).config,
                0 <= pos <= q.len(),
                insertion_point(q.subrange(0, pos as int), e.due as int) == insertion_point(q, e.due as int),
                forall|i: int| pos <= i < q.len() ==> (#[trigger] q[i]).due > e.due,
            decreases pos,
        {
            proof {
                assert(q.subrange(0, pos as int).drop_last() =~= q.subrange(0, pos - 1));
            }
            pos = pos - 1;
        }
        proof {
            if pos > 0 {
                assert(q.subrange(0, pos as int).last() == q[pos - 1]);
            }
        }
        self.queue.insert(pos, e);
        proof {
            q.insert_ensures(pos as int, e);
            let n = self.queue@;
            assert forall|i: int| 0 <= i < n.len() implies
                (#[trigger] n[i]).due == due_time(n[i].queued_at, self.config.delay) by {
                if i < pos {
                    assert(n[i] == q[i]);
                } else if i > pos {
                    assert(n[i] == q[i - 1]);
                }
            }
            assert forall|i: int, j: int| 0 <= i < j < n.len() implies (#[trigger] n[i]).due <= (#[trigger] n[j]).due by {
                if j < pos {
                    assert(n[i] == q[i] && n[j] == q[j]);
                } else if j == pos {
                    assert(n[i] == q[i]);
                    if i < pos - 1 {
                        assert(q[i].due <= q[pos - 1].due);
                    }
                } else if i < pos {
                    assert(n[i] == q[i] && n[j] == q[j - 1]);
                } else if i == pos {
                    assert(n[j] == q[j - 1]);
                } else {
                    assert(n[i] == q[i - 1] && n[j] == q[j - 1]);
                }
            }
        }
        pos
    }

    /// Queues a mail that failed at `destination`, at instant `now`; it goes
    /// to position `p`, after every entry due no later than it.
    pub fn queue_mail(&mut self, now: u64, destination: String, mail: Mail) -> (p: usize)
        requires
            old(self).wf(),
        ensures
            final(self).wf(),
            final(self).config == old(self).config,
            p <= old(self).queue@.len(),
            p == insertion_point(old(self).queue@, due_time(now, old(self).config.delay)),
            final(self).queue@.len() == old(self).queue@.len() + 1,
            final(self).queue@.remove(p as int) == old(self).queue@,
            final(self).queue@[p as int].queued_at == now,
            final(self).queue@[p as int].due == due_time(now, old(self).config.delay),
            final(self).queue@[p as int].destination@ == destination@,
            final(self).queue@[p as int].mail@ == mail@,
    {
        let ghost pre = self.queue@;
        let due = self.due_at(now);
        let e = RetryEntry { queued_at: now, due, destination, mail };
        let p = self.insert_entry(e);
        proof {
            pre.insert_ensures(p as int, e);
            self.queue@.remove_ensures(p as int);
            assert(self.queue@.remove(p as int) =~= pre);
        }
        p
    }

    /// Queues again an entry read back from disk, due at `due`. Its queueing
    /// time is taken one delay before; an entry due earlier than one delay
    /// after the epoch is due one delay after it.
    pub fn restore(&mut self, due: u64, destination: String, mail: Mail) -> (p: usize)
        requires
            old(self).wf(),
        ensures
            final(self).wf(),
            final(self).config == old(self).config,
            p <= old(self).queue@.len(),
            final(self).queue@.len() == old(self).queue@.len() + 1,
            final(self).queue@.remove(p as int) == old(self).queue@,
            ({
                let d = if due >= delay_ms(old(self).config.delay) { due as int } else { delay_ms(old(self).config.delay) };
                &&& p == insertion_point(old(self).queue@, d)
                &&& final(self).queue@[p as int].due == d
                &&& final(self).queue@[p as int].destination@ == destination@
                &&& final(self).queue@[p as int].mail@ == mail@
            }),
    {
        let ghost pre = self.queue@;
        let delay: u64 = match self.config.delay.checked_mul(1000) {
            Some(d) => d,
            None => u64::MAX,
        };
        let queued_at: u64 = if due >= delay { due - delay } else { 0 };
        let e_due: u64 = if due >= delay { due } else { delay };
        let e = RetryEntry { queued_at, due: e_due, destination, mail };
        let p = self.insert_entry(e);
        proof {
            pre.insert_ensures(p as int, e);
            self.queue@.remove_ensures(p as int);
            assert(self.queue@.remove(p as int) =~= pre);
        }
        p
    }

    /// Takes every entry due strictly before `now`; they lead the queue, and
    /// come out in queue order. What stays is not due.
    pub fn take_due(&mut self, now: u64) -> (r: Vec<RetryEntry>)
        requires
            old(self).wf(),
        ensures
            final(self).wf(),
            final(self).config == old(self).config,
            took_due(old(self).queue@, final(self).queue@, r@, now),
            forall|i: int| 0 <= i < final(self).queue@.len() ==> (#[trigger] final(self).queue@[i]).due >= now,
            forall|i: int| 0 <= i < r@.len() ==> (#[trigger] r@[i]).queued_at + delay_ms(old(self).config.delay) < now,
    {
        let ghost start = self.queue@;
        let mut r: Vec<RetryEntry> = Vec::new();
        while self.queue.len() > 0 && self.queue[0].due < now
            invariant
                self.config == old(self).config,
                start == old(self).queue@,
                r@.len() <= start.len(),
                r@ == start.subrange(0, r@.len() as int),
                self.queue@ == start.subrange(r@.len() as int, start.len() as int),
                forall|i: int| 0 <= i < r@.len() ==> (#[trigger] r@[i]).due < now,
                forall|i: int| 0 <= i < start.len() ==>
                    (#[trigger] start[i]).due == due_time(start[i].queued_at, self.config.delay),
                sorted_by_due(start),
            decreases self.queue@.len(),
        {
            let e = self.queue.pop_front().unwrap();
            r.push(e);
            proof {
                assert(r@ =~= start.subrange(0, r@.len() as int));
                assert(self.queue@ =~= start.subrange(r@.len() as int, start.len() as int));
            }
        }
        proof {
            let k = r@.len() as int;
            let n = self.queue@;
            assert forall|i: int| 0 <= i < n.len() implies
                (#[trigger] n[i]).due == due_time(n[i].queued_at, self.config.delay) by {
                assert(n[i] == start[i + k]);
            }
            assert forall|i: int, j: int| 0 <= i < j < n.len() implies (#[trigger] n[i]).due <= (#[trigger] n[j]).due by {
                assert(n[i] == start[i + k] && n[j] == start[j + k]);
            }
            assert forall|i: int| 0 <= i < n.len() implies (#[trigger] n[i]).due >= now by {
                assert(n[0] == start[k]);
                assert(n[i] == start[i + k]);
                if i > 0 {
                    assert(start[k].due <= start[i + k].due);
                }
            }
            assert forall|i: int| 0 <= i < r@.len() implies
                (#[trigger] r@[i]).queued_at + delay_ms(old(self).config.delay) < now by {
                assert(r@[i] == start[i]);
            }
        }
        r
    }

    /// One turn of the agent's worker at instant `now`: a new mail is queued,
    /// then every due mail is handed back; when the hub is gone the agent
    /// stops and reports how many mails were still waiting.
    pub fn step(&mut self, now: u64, event: RetryEvent) -> (r: RetryStep)
        requires
            old(self).wf(),
        ensures
            final(self).wf(),
            final(self).config == old(self).config,
            event is Disconnected ==> r == (RetryStep::Stop { lost: old(self).queue@.len() as usize })
                && final(self).queue@ == old(self).queue@,
            event is Tick ==> (r matches RetryStep::Resend(v) && took_due(old(self).queue@, final(self).queue@, v@, now)),
            event matches RetryEvent::QueueMail { destination, mail } ==> (r matches RetryStep::Resend(v) && {
                let p = insertion_point(old(self).queue@, due_time(now, old(self).config.delay));
                let all = v@ + final(self).queue@;
                &&& all.len() == old(self).queue@.len() + 1
                &&& all.remove(p) == old(self).queue@
                &&& all[p].queued_at == now
                &&& all[p].due == due_time(now, old(self).config.delay)
                &&& all[p].destination@ == destination@
                &&& all[p].mail@ == mail@
                &&& took_due(all, final(self).queue@, v@, now)
            }),
            r matches RetryStep::Resend(v) ==> forall|i: int| 0 <= i < v@.len() ==> {
                &&& (#[trigger] v@[i]).due < now
                &&& v@[i].queued_at + delay_ms(old(self).config.delay) < now
            },
            r is Resend ==> forall|i: int| 0 <= i < final(self).queue@.len() ==> (#[trigger] final(self).queue@[i]).due >= now,
    {
        match event {
            RetryEvent::Disconnected => RetryStep::Stop { lost: self.queue.len() },
            RetryEvent::Tick => RetryStep::Resend(self.take_due(now)),
            RetryEvent::QueueMail { destination, mail } => {
                self.queue_mail(now, destination, mail);
                let ghost q = self.queue@;
                let v = self.take_due(now);
                proof {
                    assert(v@ + self.queue@ =~= q);
                }
                RetryStep::Resend(v)
            },
        }
    }
}

/// `r` is what `take_due` returned at `now` when the agent went from `pre`
/// to `post`: a prefix of the queue, all of it due, cut at the first entry
/// that is not.
pub open spec fn took_due(pre: Seq<RetryEntry>, post: Seq<RetryEntry>, r: Seq<RetryEntry>, now: u64) -> bool {
    &&& r.len() <= pre.len()
    &&& r == pre.subrange(0, r.len() as int)
    &&& post == pre.subrange(r.len() as int, pre.len() as int)
    &&& forall|i: int| 0 <= i < r.len() ==> (#[trigger] r[i]).due < now
    &&& r.len() < pre.len() ==> pre[r.len() as int].due >= now
}

/// The retry agent that keeps its queue on disk as well: beside each queued
/// entry it holds the identifier of the record written for it, if writing
/// succeeded.
pub struct FilesystemRetryAgent {
    pub agent: MemoryRetryAgent,
    pub records: Vec<Option<u64>>,
}

/// What the worker of the filesystem retry agent does next.
#[derive(Debug, Clone)]
pub enum FsRetryStep {
    /// Hand these mails back to the hub, in this order; `records` holds the
    /// record of each.
    Resend { entries: Vec<RetryEntry>, records: Vec<Option<u64>> },
    /// Stop; the queued mails stay on disk for the next start.
    Stop,
}

impl FilesystemRetryAgent {
    pub open spec fn wf(&self) -> bool {
        &&& self.agent.wf()
        &&& self.records@.len() == self.agent.queue@.len()
    }

    pub fn new(config: &FilesystemRetryAgentConfig) -> (r: FilesystemRetryAgent)
        ensures
            r.wf(),
            r.agent.config.delay == config.delay,
            r.agent.queue@.len() == 0,
    {
        FilesystemRetryAgent {
            agent: MemoryRetryAgent::new(&MemoryRetryAgentConfig { delay: config.delay }),
            records: Vec::new(),
        }
    }

    /// Queues a failed mail whose record was written as `record` (`None`
    /// where writing it failed); the record goes to the entry's position.
    pub fn queue_mail(&mut self, now: u64, destination: String, mail: Mail, record: Option<u64>) -> (p: usize)
        requires
            old(self).wf(),
        ensures
            final(self).wf(),
            final(self).agent.config == old(self).agent.config,
            p == insertion_point(old(self).agent.queue@, due_time(now, old(self).agent.config.delay)),
            final(self).agent.queue@.len() == old(self).agent.queue@.len() + 1,
            final(self).agent.queue@.remove(p as int) == old(self).agent.queue@,
            final(self).agent.queue@[p as int].queued_at == now,
            final(self).agent.queue@[p as int].due == due_time(now, old(self).agent.config.delay),
            final(self).agent.queue@[p as int].destination@ == destination@,
            final(self).agent.queue@[p as int].mail@ == mail@,
            final(self).records@ == old(self).records@.insert(p as int, record),
    {
        let p = self.agent.queue_mail(now, destination, mail);
        self.records.insert(p, record);
        p
    }

    /// Queues again an entry read back from record `record`.
    pub fn restore(&mut self, due: u64, destination: String, mail: Mail, record: u64) -> (p: usize)
        requires
            old(self).wf(),
        ensures
            final(self).wf(),
            final(self).agent.config == old(self).agent.config,
            final(self).agent.queue@.len() == old(self).agent.queue@.len() + 1,
            final(self).agent.queue@.remove(p as int) == old(self).agent.queue@,
            ({
                let d = if due >= delay_ms(old(self).agent.config.delay) { due as int } else { delay_ms(old(self).agent.config.delay) };
                &&& p == insertion_point(old(self).agent.queue@, d)
                &&& final(self).agent.queue@[p as int].due == d
                &&& final(self).agent.queue@[p as int].destination@ == destination@
                &&& final(self).agent.queue@[p as int].mail@ == mail@
            }),
            final(self).records@ == old(self).records@.insert(p as int, Some(record)),
    {
        let p = self.agent.restore(due, destination, mail);
        self.records.insert(p, Some(record));
        p
    }

    /// Takes the due entries, as `take_due` of the memory agent does, each
    /// with its record.
    pub fn take_due(&mut self, now: u64) -> (r: (Vec<RetryEntry>, Vec<Option<u64>>))
        requires
            old(self).wf(),
        ensures
            final(self).wf(),
            final(self).agent.config == old(self).agent.config,
            took_due(old(self).agent.queue@, final(self).agent.queue@, r.0@, now),
            forall|i: int| 0 <= i < final(self).agent.queue@.len() ==> (#[trigger] final(self).agent.queue@[i]).due >= now,
            r.1@.len() == r.0@.len(),
            r.1@ == old(self).records@.subrange(0, r.1@.len() as int),
            final(self).records@ == old(self).records@.subrange(r.1@.len() as int, old(self).records@.len() as int),
            forall|i: int| 0 <= i < r.0@.len() ==> (#[trigger] r.0@[i]).queued_at + delay_ms(old(self).agent.config.delay) < now,
    {
        let due = self.agent.take_due(now);
        let ghost start = self.records@;
        let mut taken: Vec<Option<u64>> = Vec::new();
        let mut rest: Vec<Option<u64>> = Vec::new();
        let mut i: usize = 0;
        while i < self.records.len()
            invariant
                due@.len() <= start.len(),
                self.records@ == start,
                0 <= i <= start.len(),
                i <= due@.len() ==> taken@ == start.subrange(0, i as int) && rest@.len() == 0,
                i > due@.len() ==> taken@ == start.subrange(0, due@.len() as int)
                    && rest@ == start.subrange(due@.len() as int, i as int),
            decreases start.len() - i,
        {
            if i < due.len() {
                taken.push(self.records[i]);
            } else {
                rest.push(self.records[i]);
            }
            i = i + 1;
            proof {
                if i <= due@.len() {
                    assert(taken@ =~= start.subrange(0, i as int));
                } else {
                    assert(rest@ =~= start.subrange(due@.len() as int, i as int));
                }
            }
        }
        proof {
            if start.len() == due@.len() {
                assert(rest@ =~= start.subrange(due@.len() as int, start.len() as int));
            }
        }
        self.records = rest;
        (due, taken)
    }

    /// One turn of the agent's worker at instant `now`. A new mail, whose
    /// record was written as `record`, is queued; then every due mail is
    /// handed out with its record. When the hub is gone the agent stops and
    /// its queue stays on disk.
    pub fn step(&mut self, now: u64, event: RetryEvent, record: Option<u64>) -> (r: FsRetryStep)
        requires
            old(self).wf(),
        ensures
            final(self).wf(),
            final(self).agent.config == old(self).agent.config,
            event is Disconnected ==> r is Stop && final(self).agent.queue@ == old(self).agent.queue@
                && final(self).records@ == old(self).records@,
            event is Tick ==> (r matches FsRetryStep::Resend { entries, records }
                && took_due(old(self).agent.queue@, final(self).agent.queue@, entries@, now)
                && records@ == old(self).records@.subrange(0, entries@.len() as int)
                && final(self).records@ == old(self).records@.subrange(entries@.len() as int, old(self).records@.len() as int)),
            event matches RetryEvent::QueueMail { destination, mail } ==> (r matches FsRetryStep::Resend { entries, records } && {
                let p = insertion_point(old(self).agent.queue@, due_time(now, old(self).agent.config.delay));
                let all = entries@ + final(self).agent.queue@;
                let all_records = records@ + final(self).records@;
                &&& all.len() == old(self).agent.queue@.len() + 1
                &&& all.remove(p) == old(self).agent.queue@
                &&& all[p].queued_at == now
                &&& all[p].due == due_time(now, old(self).agent.config.delay)
                &&& all[p].destination@ == destination@
                &&& all[p].mail@ == mail@
                &&& took_due(all, final(self).agent.queue@, entries@, now)
                &&& records@.len() == entries@.len()
                &&& all_records == old(self).records@.insert(p, record)
            }),
            r matches FsRetryStep::Resend { entries, records } ==> forall|i: int| 0 <= i < entries@.len() ==> {
                &&& (#[trigger] entries@[i]).due < now
                &&& entries@[i].queued_at + delay_ms(old(self).agent.config.delay) < now
            },
            r is Resend ==> forall|i: int| 0 <= i < final(self).agent.queue@.len() ==> (#[trigger] final(self).agent.queue@[i]).due >= now,
    {
        match event {
            RetryEvent::Disconnected => FsRetryStep::Stop,
            RetryEvent::Tick => {
                let (entries, records) = self.take_due(now);
                FsRetryStep::Resend { entries, records }
            },
            RetryEvent::QueueMail { destination, mail } => {
                self.queue_mail(now, destination, mail, record);
                let ghost q = self.agent.queue@;
                let ghost qr = self.records@;
                let (entries, records) = self.take_due(now);
                proof {
                    assert(entries@ + self.agent.queue@ =~= q);
                    assert(records@ + self.records@ =~= qr);
                }
                FsRetryStep::Resend { entries, records }
            },
        }
    }
}

/// The record to remove once an entry was offered back to the hub: its own
/// record if the hub took the mail, none otherwise, so that the record
/// stays for the next start.
pub fn record_to_remove(handed_back: bool, record: Option<u64>) -> (r: Option<u64>)
    ensures
        r == if handed_back { record } else { None },
{
    if handed_back { record } else { None }
}

/// A mail accepted by the filesystem agent is never lost while it waits:
/// after a `take_due`, each entry that was queued is either among the
/// entries handed out, with its record, or still queued, with its record.
pub proof fn lemma_queued_mail_is_kept(
    pre: FilesystemRetryAgent,
    post: FilesystemRetryAgent,
    out: Seq<RetryEntry>,
    out_records: Seq<Option<u64>>,
    now: u64,
    i: int,
)
    requires
        pre.wf(),
        post.wf(),
        took_due(pre.agent.queue@, post.agent.queue@, out, now),
        out_records.len() == out.len(),
        out_records == pre.records@.subrange(0, out.len() as int),
        post.records@ == pre.records@.subrange(out.len() as int, pre.records@.len() as int),
        0 <= i < pre.agent.queue@.len(),
    ensures
        i < out.len() ==> out[i] == pre.agent.queue@[i] && out_records[i] == pre.records@[i],
        i >= out.len() ==> post.agent.queue@[i - out.len()] == pre.agent.queue@[i]
            && post.records@[i - out.len()] == pre.records@[i],
{
    if i < out.len() {
        assert(out[i] == pre.agent.queue@.subrange(0, out.len() as int)[i]);
    } else {
        assert(post.agent.queue@[i - out.len()] == pre.agent.queue@.subrange(out.len() as int, pre.agent.queue@.len() as int)[i - out.len()]);
    }
}

/// A mail is handed back by the first turn after it falls due: when
/// `take_due` at `now` leaves only entries that are not due, every queued
/// entry due before `now` is among those handed out.
pub proof fn lemma_due_mail_is_resent(pre: Seq<RetryEntry>, post: Seq<RetryEntry>, r: Seq<RetryEntry>, now: u64, i: int)
    requires
        took_due(pre, post, r, now),
        forall|k: int| 0 <= k < post.len() ==> (#[trigger] post[k]).due >= now,
        0 <= i < pre.len(),
        pre[i].due < now,
    ensures
        i < r.len(),
        r[i] == pre[i],
{
    if i >= r.len() {
        assert(post[i - r.len()] == pre[i]);
    }
    assert(r[i] == pre.subrange(0, r.len() as int)[i]);
}

/// A mail is never handed back before one full delay has passed since it
/// was queued: an entry of a well-formed agent that is due before `now`
/// was queued more than `delay` before `now`.
pub proof fn lemma_never_resent_early(agent: MemoryRetryAgent, i: int, now: u64)
    requires
        agent.wf(),
        0 <= i < agent.queue@.len(),
        agent.queue@[i].due < now,
    ensures
        agent.queue@[i].queued_at + delay_ms(agent.config.delay) < now,
{
}

} // verus!
