//! The server in the background: finding it and stopping it.

use vstd::prelude::*;

use crate::text::{
    blank, chars_of, decimal, find, lemma_decimal_only_digits, lemma_decimal_parses,
    lemma_nothing_to_trim, lemma_split_back, lemma_trimmed_off, parse, parsed, trim, trimmed,
};

verus! {

/// The process that a text names, white space around it aside.
pub open spec fn pid_named(s: Seq<char>) -> Option<int> {
    parsed(trimmed(s), 10, u32::MAX as int)
}

/// The process that a text names.
pub fn parse_pid(s: &str) -> (r: Option<u32>)
    ensures
        match r {
            Some(pid) => pid_named(s@) == Some(pid as int),
            None => pid_named(s@) is None,
        },
{
    let clean = trim(s);
    match parse(clean.as_str(), 10, u32::MAX as u64) {
        Some(n) => Some(n as u32),
        None => None,
    }
}

/// The processes that the lines of a text name; other lines are passed over.
pub open spec fn pids_named(s: Seq<char>) -> Seq<u32>
    decreases s.len(),
{
    let (line, rest) = match find(s, '\n') {
        Some(i) => (s.take(i), Some(s.skip(i + 1))),
        None => (s, None),
    };
    let first = match pid_named(line) {
        Some(pid) => seq![pid as u32],
        None => Seq::empty(),
    };
    match rest {
        Some(rest) if rest.len() < s.len() => first + pids_named(rest),
        _ => first,
    }
}

proof fn lemma_find_from(s: Seq<char>, c: char, i: int, k: int)
    requires
        0 <= i <= k <= s.len(),
        forall|j: int| i <= j < k ==> #[trigger] s[j] != c,
        k == s.len() || s[k] == c,
    ensures
        find(s.skip(i), c) == if k < s.len() {
            Some(k - i)
        } else {
            None
        },
    decreases k - i,
{
    let rest = s.skip(i);
    if i < k {
        assert(rest[0] == s[i]);
        assert(rest.skip(1) =~= s.skip(i + 1));
        lemma_find_from(s, c, i + 1, k);
    } else if k < s.len() {
        assert(rest[0] == s[k]);
    }
}

/// The processes that the lines of a text name.
pub fn parse_pids(s: &str) -> (r: Vec<u32>)
    ensures
        r@ == pids_named(s@),
{
    let chars = chars_of(s);
    let len: usize = chars.len();
    let mut out: Vec<u32> = Vec::new();
    let mut start: usize = 0;
    assert(s@.skip(0) =~= s@);
    assert(Seq::<u32>::empty() + pids_named(s@) =~= pids_named(s@));
    loop
        invariant
            chars@ == s@,
            len == chars@.len(),
            start <= len,
            pids_named(s@) == out@ + pids_named(s@.skip(start as int)),
        decreases len - start,
    {
        let mut end: usize = start;
        while end < len && chars[end] != '\n'
            invariant
                start <= end <= len,
                len == chars@.len(),
                forall|j: int| start <= j < end ==> #[trigger] chars@[j] != '\n',
            decreases len - end,
        {
            end = end + 1;
        }
        let line = s.substring_char(start, end);
        let ghost rest = s@.skip(start as int);
        let ghost before = out@;
        proof {
            lemma_find_from(s@, '\n', start as int, end as int);
            assert(line@ =~= rest.take(end - start));
            if end == len {
                assert(line@ =~= rest);
            }
        }
        let found = parse_pid(line);
        let ghost first: Seq<u32> = match found {
            Some(pid) => seq![pid],
            None => Seq::empty(),
        };
        if let Some(pid) = found {
            out.push(pid);
        }
        assert(out@ =~= before + first);
        if end == len {
            assert(pids_named(rest) =~= first);
            return out;
        }
        proof {
            assert(rest.skip(end - start + 1) =~= s@.skip(end + 1));
            assert(pids_named(rest) == first + pids_named(s@.skip(end + 1)));
            assert(before + (first + pids_named(s@.skip(end + 1))) =~= out@ + pids_named(
                s@.skip(end + 1),
            ));
        }
        start = end + 1;
    }
}

/// Times that a process is looked at while it is given time to end.
pub const QUIT_POLLS: u32 = 20;

/// Milliseconds between two looks.
pub const QUIT_POLL_MS: u64 = 100;

/// How far stopping a process has come.
#[derive(Debug, Clone, Copy, PartialEq, Eq, Structural)]
pub enum QuitState {
    /// It has not been looked at yet.
    Start,
    /// It was asked to end, and looked at so many times since.
    Asked { polls: u32 },
    /// It was given enough time, or was gone when it was last looked at.
    Waited,
    /// It needs no more attention. `stopped` says whether it was running.
    Done { stopped: bool },
}

/// What is done to stop a process.
#[derive(Debug, Clone, Copy, PartialEq, Eq, Structural)]
pub enum QuitAction {
    /// Ask it to end, and look at it after a while.
    Terminate,
    /// Look at it again after a while.
    Wait,
    /// Look at it once more, at once.
    Look,
    /// Make it end.
    Kill,
    /// Nothing.
    Rest,
}

/// What is done next, and how far it has come then, where `running` says whether the process was
/// running when it was looked at.
pub open spec fn quit_next(state: QuitState, running: bool) -> (QuitState, QuitAction) {
    match state {
        QuitState::Start => if running {
            (QuitState::Asked { polls: 0 }, QuitAction::Terminate)
        } else {
            (QuitState::Done { stopped: false }, QuitAction::Rest)
        },
        QuitState::Asked { polls } => if running && polls + 1 < QUIT_POLLS {
            (QuitState::Asked { polls: (polls + 1) as u32 }, QuitAction::Wait)
        } else {
            (QuitState::Waited, QuitAction::Look)
        },
        QuitState::Waited => (
            QuitState::Done { stopped: true },
            if running {
                QuitAction::Kill
            } else {
                QuitAction::Rest
            },
        ),
        QuitState::Done { stopped } => (QuitState::Done { stopped }, QuitAction::Rest),
    }
}

/// What is done next to stop a process, and how far it has come then.
pub fn quit_step(state: QuitState, running: bool) -> (r: (QuitState, QuitAction))
    ensures
        r == quit_next(state, running),
{
    match state {
        QuitState::Start => if running {
            (QuitState::Asked { polls: 0 }, QuitAction::Terminate)
        } else {
            (QuitState::Done { stopped: false }, QuitAction::Rest)
        },
        QuitState::Asked { polls } => if running && polls < QUIT_POLLS - 1 {
            (QuitState::Asked { polls: polls + 1 }, QuitAction::Wait)
        } else {
            (QuitState::Waited, QuitAction::Look)
        },
        QuitState::Waited => (
            QuitState::Done { stopped: true },
            if running {
                QuitAction::Kill
            } else {
                QuitAction::Rest
            },
        ),
        QuitState::Done { stopped } => (QuitState::Done { stopped }, QuitAction::Rest),
    }
}

/// How many looks at a process are left at most.
pub open spec fn looks_left(state: QuitState) -> int {
    match state {
        QuitState::Start => QUIT_POLLS + 2,
        QuitState::Asked { polls } => if polls < QUIT_POLLS {
            QUIT_POLLS - polls + 1
        } else {
            2
        },
        QuitState::Waited => 1,
        QuitState::Done { .. } => 0,
    }
}

/// Stopping a process comes to an end, and the process is only made to end after it was asked to and
/// given its time.
pub proof fn lemma_quit_ends(state: QuitState, running: bool)
    ensures
        !(state is Done) ==> looks_left(quit_next(state, running).0) < looks_left(state),
        looks_left(state) >= 0,
        quit_next(state, running).1 is Kill ==> state is Waited && running,
        quit_next(state, running).0 is Waited ==> state is Asked,
        quit_next(state, running).0 is Asked && state is Start ==> quit_next(state, running).1 is Terminate,
{
}

/// Stops a process whose replies, look by look, are given, and tells what was done.
pub open spec fn quit_run(state: QuitState, replies: Seq<bool>) -> QuitState
    decreases replies.len(),
{
    if replies.len() == 0 {
        state
    } else {
        quit_run(quit_next(state, replies[0]).0, replies.skip(1))
    }
}

/// After as many looks as there can be, stopping a process is over; it was stopped exactly if it was
/// running when it was first looked at.
pub proof fn lemma_quit_done(replies: Seq<bool>)
    requires
        replies.len() >= QUIT_POLLS + 2,
    ensures
        quit_run(QuitState::Start, replies) == (QuitState::Done { stopped: replies[0] }),
{
    lemma_quit_over(quit_next(QuitState::Start, replies[0]).0, replies.skip(1));
}

proof fn lemma_quit_over(state: QuitState, replies: Seq<bool>)
    requires
        replies.len() >= looks_left(state),
        !(state is Start),
    ensures
        quit_run(state, replies) == match state {
            QuitState::Done { stopped } => QuitState::Done { stopped },
            _ => QuitState::Done { stopped: true },
        },
    decreases replies.len(),
{
    if replies.len() > 0 {
        lemma_quit_over(quit_next(state, replies[0]).0, replies.skip(1));
    }
}

/// The processes of a list, each in a line of its own.
pub open spec fn listed(pids: Seq<u32>) -> Seq<char>
    decreases pids.len(),
{
    if pids.len() == 0 {
        Seq::empty()
    } else {
        decimal(pids[0] as int) + seq!['\n'] + listed(pids.skip(1))
    }
}

/// A list of processes is read back as it was written, in its order.
pub proof fn lemma_list_read_back(pids: Seq<u32>)
    ensures
        pids_named(listed(pids)) == pids,
    decreases pids.len(),
{
    let s = listed(pids);
    if pids.len() == 0 {
        assert(find(s, '\n') is None);
        assert(trimmed(s) =~= Seq::empty());
        assert(pid_named(s) is None);
        assert(pids_named(s) =~= pids);
    } else {
        let line = decimal(pids[0] as int);
        let rest = listed(pids.skip(1));
        lemma_list_read_back(pids.skip(1));
        lemma_line(pids[0] as int);
        lemma_split_back(line, rest, '\n');
        assert(s.take(line.len() as int) =~= line);
        assert(s.skip(line.len() as int + 1) =~= rest);
        assert(find(s, '\n') is Some);
        let i = find(s, '\n')->0;
        assert(s.take(i) == line && s.skip(i + 1) == rest);
        assert(rest.len() < s.len());
        assert(seq![pids[0]] + pids.skip(1) =~= pids);
    }
}

proof fn lemma_line(n: int)
    requires
        0 <= n <= u32::MAX,
    ensures
        !decimal(n).contains('\n'),
        trimmed(decimal(n)) == decimal(n),
        pid_named(decimal(n)) == Some(n),
{
    let s = decimal(n);
    lemma_decimal_parses(n, u32::MAX as int);
    assert forall|i: int| 0 <= i < s.len() implies '0' as int <= #[trigger] s[i] as int <= '9' as int by {
        lemma_decimal_only_digits(n, i);
    }
    assert(s.len() > 0);
    lemma_nothing_to_trim(s);
}

/// A process is named by its number, whatever white space is around it.
pub proof fn lemma_process_named(before: Seq<char>, n: int, after: Seq<char>)
    requires
        blank(before),
        blank(after),
        0 <= n <= u32::MAX,
    ensures
        pid_named(before + decimal(n) + after) == Some(n),
{
    let s = decimal(n);
    lemma_line(n);
    lemma_decimal_parses(n, u32::MAX as int);
    assert(s.len() > 0);
    lemma_decimal_only_digits(n, 0);
    lemma_decimal_only_digits(n, s.len() - 1);
    lemma_trimmed_off(before, s, after);
}

/// How far stopping a process has come after `k` looks, and what was done at look `k`.
pub open spec fn quit_at(replies: Seq<bool>, k: int) -> QuitState {
    quit_run(QuitState::Start, replies.take(k))
}

proof fn lemma_quit_run_step(state: QuitState, replies: Seq<bool>, k: int)
    requires
        0 <= k < replies.len(),
    ensures
        quit_run(state, replies.take(k + 1)) == quit_next(
            quit_run(state, replies.take(k)),
            replies[k],
        ).0,
    decreases k,
{
    let longer = replies.take(k + 1);
    let shorter = replies.take(k);
    if k == 0 {
        assert(longer.skip(1) =~= Seq::empty());
        assert(shorter =~= Seq::empty());
        reveal_with_fuel(quit_run, 2);
    } else {
        let next = quit_next(state, replies[0]).0;
        lemma_quit_run_step(next, replies.skip(1), k - 1);
        assert(longer.skip(1) =~= replies.skip(1).take(k));
        assert(shorter.skip(1) =~= replies.skip(1).take(k - 1));
    }
}

proof fn lemma_quit_asked(replies: Seq<bool>, k: int)
    requires
        0 < k <= 20,
        k <= replies.len(),
        forall|i: int| 0 <= i < k ==> #[trigger] replies[i],
    ensures
        quit_at(replies, k) == (QuitState::Asked { polls: (k - 1) as u32 }),
    decreases k,
{
    lemma_quit_run_step(QuitState::Start, replies, k - 1);
    if k > 1 {
        lemma_quit_asked(replies, k - 1);
    } else {
        assert(replies.take(0) =~= Seq::empty());
    }
    assert(replies[k - 1]);
}

/// A process is given its time: it is asked to end when it is first found running, looked at twenty times
/// after that, and made to end only if it still runs when it is looked at once more.
pub proof fn lemma_quit_patience(replies: Seq<bool>, k: int)
    requires
        replies.len() >= 22,
        forall|i: int| 0 <= i < 22 ==> #[trigger] replies[i],
        0 <= k < 22,
    ensures
        quit_next(quit_at(replies, k), replies[k]).1 == if k == 0 {
            QuitAction::Terminate
        } else if k < 20 {
            QuitAction::Wait
        } else if k == 20 {
            QuitAction::Look
        } else {
            QuitAction::Kill
        },
{
    assert(replies[k]);
    if k == 0 {
        assert(replies.take(0) =~= Seq::empty());
    } else if k <= 20 {
        lemma_quit_asked(replies, k);
    } else {
        lemma_quit_asked(replies, 20);
        assert(replies[20]);
        lemma_quit_run_step(QuitState::Start, replies, 20);
    }
}

/// A process that ends in time is not made to: once it has been found gone and is still gone at the next
/// look, stopping it is over.
pub proof fn lemma_quit_gone(polls: u32)
    ensures
        quit_next(QuitState::Asked { polls }, false) == (QuitState::Waited, QuitAction::Look),
        quit_next(QuitState::Waited, false) == (QuitState::Done { stopped: true }, QuitAction::Rest),
        quit_next(QuitState::Start, false) == (QuitState::Done { stopped: false }, QuitAction::Rest),
{
}

} // verus!
