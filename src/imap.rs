use vstd::prelude::*;
use vstd::string::StrSliceExecFns;
use crate::config::AuthMethod;

verus! {

/// How many failed attempts of one request `run` makes before it gives up.
pub const MAX_ATTEMPTS: u32 = 3;

/// How one attempt of a request on the IMAP session ended.
#[derive(Debug, Clone, Copy, PartialEq, Eq)]
pub enum RunOutcome {
    Success,
    /// The server connection was lost.
    ConnectionLost,
    /// Any other error.
    Failed,
}

/// What `run` does after an attempt.
#[derive(Debug, Clone, Copy, PartialEq, Eq)]
pub enum RunStep {
    /// Hand the result to the caller.
    Return,
    /// Drop the cached session and try again on a new one.
    Reconnect,
    /// Try again on the same session; `failures` attempts have failed so far.
    Retry { failures: u32 },
    /// Report the error to the caller.
    GiveUp,
}

/// The retry policy of `run`. `failures` counts the earlier attempts that
/// failed with an error other than a lost connection.
pub fn next_run_step(failures: u32, outcome: RunOutcome) -> (r: RunStep)
    ensures
        outcome == RunOutcome::Success ==> r == RunStep::Return,
        outcome == RunOutcome::ConnectionLost ==> r == RunStep::Reconnect,
        outcome == RunOutcome::Failed && failures + 1 >= MAX_ATTEMPTS ==> r == RunStep::GiveUp,
        outcome == RunOutcome::Failed && failures + 1 < MAX_ATTEMPTS ==> r == (RunStep::Retry { failures: (failures + 1) as u32 }),
{
    match outcome {
        RunOutcome::Success => RunStep::Return,
        RunOutcome::ConnectionLost => RunStep::Reconnect,
        RunOutcome::Failed => {
            if failures >= MAX_ATTEMPTS - 1 {
                RunStep::GiveUp
            } else {
                RunStep::Retry { failures: failures + 1 }
            }
        },
    }
}

/// The longest an IDLE command may stay open, in seconds: servers may drop
/// a client idle for 30 minutes, so it is renewed before 29 have passed.
pub const MAX_IDLE_SECS: u64 = 1740;

/// How long one IDLE waits before it is renewed, in seconds: the configured
/// interval, at least one second and at most `MAX_IDLE_SECS`.
pub fn idle_wait_secs(renewinterval: u64) -> (r: u64)
    ensures
        r == if renewinterval < 1 { 1 } else if renewinterval > MAX_IDLE_SECS { MAX_IDLE_SECS } else { renewinterval },
{
    if renewinterval < 1 {
        1
    } else if renewinterval > MAX_IDLE_SECS {
        MAX_IDLE_SECS
    } else {
        renewinterval
    }
}

/// The pause before the next reconnection attempt of an IDLE source, in
/// seconds: twice the last one, at least one second, at most the renewal
/// wait of the source.
pub fn next_backoff(last: u64, renewinterval: u64) -> (r: u64)
    ensures
        r == if 2 * last < 1 { 1 } else if 2 * last > idle_wait_bound(renewinterval) { idle_wait_bound(renewinterval) } else { 2 * last },
        1 <= r <= MAX_IDLE_SECS,
{
    let cap = idle_wait_secs(renewinterval);
    if last > cap / 2 {
        cap
    } else if last == 0 {
        1
    } else {
        2 * last
    }
}

pub open spec fn idle_wait_bound(renewinterval: u64) -> int {
    if renewinterval < 1 { 1 } else if renewinterval > MAX_IDLE_SECS { MAX_IDLE_SECS as int } else { renewinterval as int }
}

/// Why a session could not be opened.
#[derive(Debug, Clone, PartialEq, Eq)]
pub enum SessionError {
    /// PLAIN authentication is not supported.
    PlainAuthUnsupported,
}

/// The user and password to LOGIN with; PLAIN authentication is refused.
pub fn login_credentials(auth: &AuthMethod) -> (r: Result<(String, String), SessionError>)
    ensures
        auth matches AuthMethod::Plain { .. } ==> r == Err::<(String, String), SessionError>(SessionError::PlainAuthUnsupported),
        auth matches AuthMethod::Login { user, password } ==> (r matches Ok((u, p)) && u@ == user@ && p@ == password@),
{
    match auth {
        AuthMethod::Plain { .. } => Err(SessionError::PlainAuthUnsupported),
        AuthMethod::Login { user, password } => Ok((user.clone(), password.clone())),
    }
}

/// What `str::replace` returns for `s`, `from` and `to`.
pub uninterp spec fn replaced(s: Seq<char>, from: Seq<char>, to: Seq<char>) -> Seq<char>;

/// Every occurrence of the character `from` in `s` turned into `to`.
pub open spec fn char_replaced(s: Seq<char>, from: char, to: char) -> Seq<char> {
    s.map_values(|c: char| if c == from { to } else { c })
}

/// Relies on `str::replace`: every non-overlapping match of `from` in `s`
/// replaced by `to`; for a one-character pattern and replacement that is
/// each occurrence of the character.
#[verifier::external_body]
fn replace_all(s: &str, from: &str, to: &str) -> (r: String)
    ensures
        r@ == replaced(s@, from@, to@),
        from@.len() == 1 && to@.len() == 1 ==> r@ == char_replaced(s@, from@[0], to@[0]),
{
    s.replace(from, to)
}

/// The slash-separated path of a mailbox whose server name is `name` and
/// whose hierarchy delimiter is `delimiter`: each delimiter becomes `/`.
pub fn mailbox_path(name: &str, delimiter: Option<&str>) -> (r: String)
    ensures
        delimiter matches Some(d) ==> r@ == replaced(name@, d@, seq!['/']),
        delimiter matches Some(d) ==> (d@.len() == 1 ==> r@ == char_replaced(name@, d@[0], '/')),
        delimiter is None ==> r@ == name@,
{
    match delimiter {
        Some(d) => {
            let slash = "/";
            proof {
                reveal_strlit("/");
            }
            assert(slash@ =~= seq!['/']);
            replace_all(name, d, slash)
        },
        None => name.to_owned(),
    }
}

/// Whether `path` starts with `prefix`.
pub fn has_prefix(path: &str, prefix: &str) -> (r: bool)
    ensures
        r == prefix@.is_prefix_of(path@),
{
    let n = prefix.unicode_len();
    if n > path.unicode_len() {
        return false;
    }
    let mut i: usize = 0;
    while i < n
        invariant
            n == prefix@.len(),
            n <= path@.len(),
            0 <= i <= n,
            forall|k: int| 0 <= k < i ==> prefix@[k] == path@[k],
        decreases n - i,
    {
        if prefix.get_char(i) != path.get_char(i) {
            return false;
        }
        i = i + 1;
    }
    true
}

/// Whether a mailbox of path `path` is visited under `filter`.
pub open spec fn wanted(filter: Option<&str>, path: Seq<char>) -> bool {
    match filter {
        Some(f) => f@.is_prefix_of(path),
        None => true,
    }
}

/// The positions in `paths` of the mailboxes to visit: all of them with no
/// filter, else those whose path starts with the filter; in list order.
pub fn select_mailboxes(paths: &Vec<String>, filter: Option<&str>) -> (r: Vec<usize>)
    ensures
        forall|k: int| 0 <= k < r@.len() ==> #[trigger] r@[k] < paths@.len(),
        forall|k: int, m: int| 0 <= k < m < r@.len() ==> r@[k] < r@[m],
        forall|i: int| 0 <= i < paths@.len() ==> (r@.contains(i as usize) <==> wanted(filter, #[trigger] paths@[i]@)),
{
    let mut r: Vec<usize> = Vec::new();
    let mut i: usize = 0;
    while i < paths.len()
        invariant
            0 <= i <= paths@.len(),
            forall|k: int| 0 <= k < r@.len() ==> #[trigger] r@[k] < i,
            forall|k: int, m: int| 0 <= k < m < r@.len() ==> r@[k] < r@[m],
            forall|j: int| 0 <= j < i ==> (r@.contains(j as usize) <==> wanted(filter, #[trigger] paths@[j]@)),
        decreases paths@.len() - i,
    {
        let keep = match filter {
            Some(f) => has_prefix(paths[i].as_str(), f),
            None => true,
        };
        assert(keep == wanted(filter, paths@[i as int]@));
        let ghost before = r@;
        if keep {
            r.push(i);
        }
        proof {
            assert forall|j: int| 0 <= j <= i implies (r@.contains(j as usize) <==> wanted(filter, #[trigger] paths@[j]@)) by {
                if j < i {
                    assert(before.contains(j as usize) <==> wanted(filter, paths@[j]@));
                }
                if r@.contains(j as usize) {
                    let k = choose|k: int| 0 <= k < r@.len() && r@[k] == j as usize;
                    if k < before.len() {
                        assert(before[k] == j as usize);
                        assert(before.contains(j as usize));
                    }
                }
                if j < i && before.contains(j as usize) {
                    let k = choose|k: int| 0 <= k < before.len() && before[k] == j as usize;
                    assert(r@[k] == j as usize);
                }
                if j == i && keep {
                    assert(r@[r@.len() - 1] == i);
                }
            }
        }
        i = i + 1;
    }
    r
}

/// The sequence numbers of the entries whose mail reached the hub.
pub open spec fn emitted_seqs(outcomes: Seq<(u32, bool)>) -> Seq<u32>
    decreases outcomes.len(),
{
    if outcomes.len() == 0 {
        Seq::empty()
    } else {
        let rest = emitted_seqs(outcomes.drop_last());
        if outcomes.last().1 { rest.push(outcomes.last().0) } else { rest }
    }
}

/// The messages a poll cycle deletes, given for each fetched message its
/// sequence number and whether its mail reached the hub.
pub open spec fn deleted(keep: bool, outcomes: Seq<(u32, bool)>) -> Seq<u32> {
    if keep { Seq::empty() } else { emitted_seqs(outcomes) }
}

/// The messages a poll cycle deletes on the server: none when the source
/// keeps its mail, else those whose mail was emitted to the hub. Whether
/// the mail was later delivered plays no part.
pub fn seqs_to_delete(keep: bool, outcomes: &Vec<(u32, bool)>) -> (r: Vec<u32>)
    ensures
        r@ == deleted(keep, outcomes@),
{
    let mut r: Vec<u32> = Vec::new();
    if keep {
        return r;
    }
    let mut i: usize = 0;
    while i < outcomes.len()
        invariant
            0 <= i <= outcomes@.len(),
            r@ == emitted_seqs(outcomes@.subrange(0, i as int)),
        decreases outcomes@.len() - i,
    {
        let (seq, emitted) = outcomes[i];
        if emitted {
            r.push(seq);
        }
        proof {
            assert(outcomes@.subrange(0, i + 1).drop_last() =~= outcomes@.subrange(0, i as int));
        }
        i = i + 1;
    }
    proof {
        assert(outcomes@.subrange(0, outcomes@.len() as int) =~= outcomes@);
    }
    r
}

/// A poll cycle over mailboxes with no unseen mail deletes nothing.
pub proof fn lemma_empty_cycle_is_quiet(keep: bool)
    ensures
        deleted(keep, Seq::<(u32, bool)>::empty()) == Seq::<u32>::empty(),
{
}

/// A source that does not keep its mail deletes every message whose mail
/// reached the hub: deletion follows emission, not delivery, so a mail
/// that later fails at its destination is deleted all the same.
pub proof fn lemma_emitted_mail_is_deleted(outcomes: Seq<(u32, bool)>, i: int)
    requires
        0 <= i < outcomes.len(),
        outcomes[i].1,
    ensures
        deleted(false, outcomes).contains(outcomes[i].0),
    decreases outcomes.len(),
{
    let rest = emitted_seqs(outcomes.drop_last());
    if i == outcomes.len() - 1 {
        assert(emitted_seqs(outcomes) == rest.push(outcomes[i].0));
        assert(emitted_seqs(outcomes)[rest.len() as int] == outcomes[i].0);
    } else {
        lemma_emitted_mail_is_deleted(outcomes.drop_last(), i);
        assert(outcomes.drop_last()[i] == outcomes[i]);
        let k = choose|k: int| 0 <= k < rest.len() && rest[k] == outcomes[i].0;
        assert(emitted_seqs(outcomes)[k] == outcomes[i].0);
    }
}

/// A message whose mail did not reach the hub is never deleted, whatever
/// the source's `keep` setting.
pub proof fn lemma_unemitted_mail_is_kept(keep: bool, outcomes: Seq<(u32, bool)>, seq: u32)
    requires
        forall|i: int| 0 <= i < outcomes.len() && (#[trigger] outcomes[i]).0 == seq ==> !outcomes[i].1,
    ensures
        !deleted(keep, outcomes).contains(seq),
    decreases outcomes.len(),
{
    if !keep && outcomes.len() > 0 {
        let init = outcomes.drop_last();
        assert forall|i: int| 0 <= i < init.len() && (#[trigger] init[i]).0 == seq implies !init[i].1 by {
            assert(init[i] == outcomes[i]);
        }
        lemma_unemitted_mail_is_kept(keep, init, seq);
        let rest = emitted_seqs(init);
        if outcomes.last().1 {
            assert(outcomes[outcomes.len() - 1].0 != seq);
            assert forall|k: int| 0 <= k < rest.len() + 1 implies emitted_seqs(outcomes)[k] != seq by {
                if k < rest.len() {
                    assert(!rest.contains(seq));
                    assert(rest[k] != seq);
                }
            }
        }
    }
}

/// The ASCII decimal digits of `n`.
pub open spec fn decimal(n: nat) -> Seq<u8>
    decreases n,
{
    if n < 10 {
        seq![(48 + n) as u8]
    } else {
        decimal(n / 10).push((48 + n % 10) as u8)
    }
}

/// An IMAP sequence set naming `ids`: their decimal numbers joined by commas.
pub open spec fn sequence_set_of(ids: Seq<u32>) -> Seq<u8>
    decreases ids.len(),
{
    if ids.len() == 0 {
        Seq::empty()
    } else if ids.len() == 1 {
        decimal(ids[0] as nat)
    } else {
        sequence_set_of(ids.drop_last()) + seq![44u8] + decimal(ids.last() as nat)
    }
}

fn push_decimal(out: &mut Vec<u8>, n: u32)
    ensures
        final(out)@ == old(out)@ + decimal(n as nat),
    decreases n,
{
    if n >= 10 {
        push_decimal(out, n / 10);
    }
    out.push(48 + (n % 10) as u8);
    assert(out@ =~= old(out)@ + decimal(n as nat));
}

/// The sequence set that names the messages `ids`, as ASCII bytes.
pub fn sequence_set(ids: &Vec<u32>) -> (r: Vec<u8>)
    ensures
        r@ == sequence_set_of(ids@),
{
    let mut r: Vec<u8> = Vec::new();
    let mut i: usize = 0;
    while i < ids.len()
        invariant
            0 <= i <= ids@.len(),
            r@ == sequence_set_of(ids@.subrange(0, i as int)),
        decreases ids@.len() - i,
    {
        if i > 0 {
            r.push(44u8);
        }
        push_decimal(&mut r, ids[i]);
        proof {
            let s = ids@.subrange(0, i + 1);
            assert(s.drop_last() =~= ids@.subrange(0, i as int));
            assert(r@ =~= sequence_set_of(s));
        }
        i = i + 1;
    }
    proof {
        assert(ids@.subrange(0, ids@.len() as int) =~= ids@);
    }
    r
}

} // verus!
