//! The client of the keymapping daemon, without its socket.
//!
//! A [`Kanata`] records the commands it is asked to send, in order, and hands
//! them out one at a time to whoever owns the transport.

use std::collections::VecDeque;
use vstd::prelude::*;

use crate::message::{press, release, Action, Command, CommandView};
use crate::util::{name_of, names};

verus! {

/// The releases that open the startup of one watched set: one for every
/// identifier of `set` that is not the active key, in the set's order. An
/// identifier listed twice is released twice.
pub open spec fn startup_releases(set: Seq<Seq<char>>, active: Option<Seq<char>>) -> Seq<
    CommandView,
> {
    set.filter(|id: Seq<char>| Some(id) != active).map_values(|id: Seq<char>| release(id))
}

/// The press that closes the startup of one watched set: one press of the
/// active key where it is a member of `set`, nothing otherwise.
pub open spec fn startup_press(set: Seq<Seq<char>>, active: Option<Seq<char>>) -> Seq<
    CommandView,
> {
    match active {
        Some(name) if set.contains(name) => seq![press(name)],
        _ => Seq::empty(),
    }
}

/// The commands that bring the daemon in line with one watched set at
/// startup, whatever it held before: the releases, then the press.
pub open spec fn init_commands(set: Seq<Seq<char>>, active: Option<Seq<char>>) -> Seq<CommandView> {
    startup_releases(set, active) + startup_press(set, active)
}

/// How long one attempt to connect may take, in milliseconds.
pub const CONNECT_TIMEOUT_MS: u64 = 200;

/// How long to wait after a refused attempt before the next, in milliseconds.
pub const RETRY_INTERVAL_MS: u64 = 200;

/// How long to keep trying before giving up for good, in milliseconds.
pub const RETRY_TIMEOUT_MS: u64 = 2000;

/// What the owner of the socket reports while a connection is being made.
#[derive(Clone, Copy, Debug, PartialEq, Eq, Structural)]
pub enum ConnectEvent {
    /// The clock was read: so long since connecting began.
    Tick { elapsed_ms: u64 },
    /// The attempt failed.
    Refused,
    /// The attempt succeeded.
    Connected,
}

/// What the owner of the socket is to do next.
#[derive(Clone, Copy, Debug, PartialEq, Eq, Structural)]
pub enum ConnectAction {
    /// Try to connect, waiting no longer than this.
    Attempt { timeout_ms: u64 },
    /// Sleep this long, then read the clock again.
    Sleep { interval_ms: u64 },
    /// The connection stands.
    Ready,
    /// The daemon is not there: the program cannot go on.
    GiveUp,
}

/// The retry policy. Before each attempt the clock is read: once the retry
/// timeout has passed the client gives up, before that it tries again. A
/// refused attempt is followed by a sleep of the retry interval.
pub open spec fn connect_step(event: ConnectEvent) -> ConnectAction {
    match event {
        ConnectEvent::Tick { elapsed_ms } => if elapsed_ms >= RETRY_TIMEOUT_MS {
            ConnectAction::GiveUp
        } else {
            ConnectAction::Attempt { timeout_ms: CONNECT_TIMEOUT_MS }
        },
        ConnectEvent::Refused => ConnectAction::Sleep { interval_ms: RETRY_INTERVAL_MS },
        ConnectEvent::Connected => ConnectAction::Ready,
    }
}

/// The readings of the clock in a run where every attempt is refused, one
/// reading before each attempt: each is at least a retry interval later than
/// the one before, since the client sleeps that long in between.
pub open spec fn paced(ticks: Seq<u64>) -> bool {
    forall|i: int, j: int|
        0 <= i && j == i + 1 && j < ticks.len() ==> #[trigger] ticks[i] + RETRY_INTERVAL_MS
            <= #[trigger] ticks[j]
}

/// The client gives up at a reading of the clock exactly where the retry
/// timeout has passed: not before, and at the first look after.
pub proof fn lemma_gives_up_at_deadline(elapsed_ms: u64)
    ensures
        connect_step(ConnectEvent::Tick { elapsed_ms }) == ConnectAction::GiveUp <==> elapsed_ms
            >= RETRY_TIMEOUT_MS,
        connect_step(ConnectEvent::Tick { elapsed_ms }) == (ConnectAction::Attempt {
            timeout_ms: CONNECT_TIMEOUT_MS,
        }) <==> elapsed_ms < RETRY_TIMEOUT_MS,
{
}

/// The client does not try for ever. Where every attempt is refused, the
/// reading before the attempt number `round`, counted from zero, is at least
/// `round` retry intervals; so from the round on at which that many intervals
/// make up the retry timeout, the client gives up.
pub proof fn lemma_gives_up_in_time(ticks: Seq<u64>, round: int)
    requires
        paced(ticks),
        0 <= round < ticks.len(),
    ensures
        ticks[round] >= round * RETRY_INTERVAL_MS,
        round * RETRY_INTERVAL_MS >= RETRY_TIMEOUT_MS ==> connect_step(
            ConnectEvent::Tick { elapsed_ms: ticks[round] },
        ) == ConnectAction::GiveUp,
    decreases round,
{
    if round > 0 {
        lemma_gives_up_in_time(ticks, round - 1);
        assert(ticks[round - 1] + RETRY_INTERVAL_MS <= ticks[round]);
    }
}

/// The client gives up soon after the retry timeout. Where the round before
/// the one that gives up took no longer than an attempt and a sleep may take,
/// the clock then shows less than the retry timeout and that much.
pub proof fn lemma_gives_up_soon_after_deadline(before_ms: u64, elapsed_ms: u64)
    requires
        connect_step(ConnectEvent::Tick { elapsed_ms: before_ms }) != ConnectAction::GiveUp,
        elapsed_ms <= before_ms + CONNECT_TIMEOUT_MS + RETRY_INTERVAL_MS,
    ensures
        elapsed_ms < RETRY_TIMEOUT_MS + CONNECT_TIMEOUT_MS + RETRY_INTERVAL_MS,
{
}

/// How a write to the daemon went.
#[derive(Clone, Copy, Debug, PartialEq, Eq, Structural)]
pub enum WriteOutcome {
    /// The transport took this many bytes.
    Wrote(usize),
    /// The transport reported an error.
    Failed,
}

/// What follows from a write.
#[derive(Clone, Copy, Debug, PartialEq, Eq, Structural)]
pub enum WriteVerdict {
    /// The whole text was written.
    Sent,
    /// The transport took another number of bytes than the text has. Worth a
    /// line in the log, and nothing else: the client goes on.
    Partial { written: usize, expected: usize },
    /// The connection is gone. The command is lost and is not sent again; the
    /// client connects anew, under the same retry policy as at startup.
    Reconnect,
}

/// The verdict on a write of `expected` bytes.
pub open spec fn write_verdict(expected: usize, outcome: WriteOutcome) -> WriteVerdict {
    match outcome {
        WriteOutcome::Wrote(written) => if written == expected {
            WriteVerdict::Sent
        } else {
            WriteVerdict::Partial { written, expected }
        },
        WriteOutcome::Failed => WriteVerdict::Reconnect,
    }
}

/// A write that fails is answered in one way, whatever was to be written: the
/// client connects anew. It does so under the retry policy of startup, so with
/// a clock begun anew, which shows less than the retry timeout, the first
/// move is an attempt with the same timeout, and a refusal is followed by the
/// same sleep. Once the connection stands again, a write that takes the whole
/// text is sent and calls for no further reconnect.
pub proof fn lemma_failed_write_reconnects(expected: usize, elapsed_ms: u64, next_expected: usize)
    requires
        elapsed_ms < RETRY_TIMEOUT_MS,
    ensures
        write_verdict(expected, WriteOutcome::Failed) == WriteVerdict::Reconnect,
        connect_step(ConnectEvent::Tick { elapsed_ms }) == (ConnectAction::Attempt {
            timeout_ms: CONNECT_TIMEOUT_MS,
        }),
        connect_step(ConnectEvent::Refused) == (ConnectAction::Sleep {
            interval_ms: RETRY_INTERVAL_MS,
        }),
        connect_step(ConnectEvent::Connected) == ConnectAction::Ready,
        write_verdict(next_expected, WriteOutcome::Wrote(next_expected)) == WriteVerdict::Sent,
{
}

/// Only a failed write calls for a reconnect: a write that the transport
/// took, in whole or in part, leaves the connection as it is.
pub proof fn lemma_reconnect_only_after_failure(expected: usize, outcome: WriteOutcome)
    ensures
        write_verdict(expected, outcome) == WriteVerdict::Reconnect <==> outcome
            == WriteOutcome::Failed,
{
}

/// The startup commands settle every identifier of the watched set, whatever
/// the daemon held before: one that is not the active key is released and not
/// pressed, and the active key is pressed by the last command and not
/// released. No command names anything else.
pub proof fn lemma_startup_settles(set: Seq<Seq<char>>, active: Option<Seq<char>>, id: Seq<char>)
    ensures
        set.contains(id) && Some(id) != active ==> init_commands(set, active).contains(release(id))
            && !init_commands(set, active).contains(press(id)),
        set.contains(id) && Some(id) == active ==> init_commands(set, active).last() == press(id)
            && init_commands(set, active).len() > 0 && !init_commands(set, active).contains(
            release(id),
        ),
        !set.contains(id) ==> !init_commands(set, active).contains(release(id))
            && !init_commands(set, active).contains(press(id)),
{
    let stays = |id: Seq<char>| Some(id) != active;
    let to_release = |id: Seq<char>| release(id);
    let kept = set.filter(stays);
    let releases = kept.map_values(to_release);
    let all = init_commands(set, active);
    if set.contains(id) && Some(id) != active {
        let k = choose|k: int| 0 <= k < set.len() && set[k] == id;
        set.lemma_filter_contains(stays, k);
        let j = choose|j: int| 0 <= j < kept.len() && kept[j] == id;
        assert(releases[j] == release(id));
        assert(all[j] == release(id));
    }
    if all.contains(release(id)) {
        let j = choose|j: int| 0 <= j < all.len() && all[j] == release(id);
        assert(releases[j] == release(kept[j]));
        set.lemma_filter_pred(stays, j);
        assert(kept.contains(kept[j]));
        set.lemma_filter_contains_rev(stays, id);
    }
    if all.contains(press(id)) {
        let j = choose|j: int| 0 <= j < all.len() && all[j] == press(id);
        if j < releases.len() {
            assert(releases[j] == release(kept[j]));
        }
    }
}

/// The daemon client: the port it talks to and the commands not yet handed
/// to the transport.
pub struct Kanata {
    port: u16,
    outbox: VecDeque<Command>,
}

impl Kanata {
    /// The TCP port of the daemon.
    pub closed spec fn spec_port(&self) -> u16 {
        self.port
    }

    /// The TCP port of the daemon.
    #[verifier::when_used_as_spec(spec_port)]
    pub fn port(&self) -> (port: u16)
        ensures
            port == self.port(),
    {
        self.port
    }

    /// Where the daemon listens: the loopback interface, as the four bytes
    /// of its address, and the port.
    pub fn addr(&self) -> (addr: ([u8; 4], u16))
        ensures
            addr.0@ == seq![127u8, 0u8, 0u8, 1u8],
            addr.1 == self.port(),
    {
        ([127, 0, 0, 1], self.port)
    }

    /// The commands recorded and not yet taken, oldest first.
    pub closed spec fn pending(&self) -> Seq<CommandView> {
        self.outbox@.map_values(|c: Command| c@)
    }

    /// A client for the daemon at `port`, with nothing to send yet.
    pub fn new(port: u16) -> (kanata: Kanata)
        ensures
            kanata.port() == port,
            kanata.pending() == Seq::<CommandView>::empty(),
    {
        Kanata { port, outbox: VecDeque::new() }
    }

    fn act_on_fake_key(&mut self, name: &str, action: Action)
        ensures
            final(self).port() == old(self).port(),
            final(self).pending() == old(self).pending().push(
                CommandView { name: name@, action },
            ),
    {
        let command = Command { name: name.to_owned(), action };
        self.outbox.push_back(command);
        assert(self.outbox@.map_values(|c: Command| c@) =~= old(self).outbox@.map_values(
            |c: Command| c@,
        ).push(command@));
    }

    /// Records a release of the virtual key `name`.
    pub fn release_vk(&mut self, name: &str)
        ensures
            final(self).port() == old(self).port(),
            final(self).pending() == old(self).pending().push(release(name@)),
    {
        self.act_on_fake_key(name, Action::Release)
    }

    /// Records a press of the virtual key `name`.
    pub fn press_vk(&mut self, name: &str)
        ensures
            final(self).port() == old(self).port(),
            final(self).pending() == old(self).pending().push(press(name@)),
    {
        self.act_on_fake_key(name, Action::Press)
    }

    /// Records the startup commands for the watched set `vks`, of which
    /// `current_vk` is the active key.
    pub fn init_vks(&mut self, vks: &Vec<String>, current_vk: &Option<String>)
        ensures
            final(self).port() == old(self).port(),
            final(self).pending() == old(self).pending() + init_commands(
                names(vks@),
                name_of(*current_vk),
            ),
    {
        let ghost set = names(vks@);
        let ghost active = name_of(*current_vk);
        let ghost stays = |id: Seq<char>| Some(id) != active;
        let ghost to_release = |id: Seq<char>| release(id);
        let mut member = false;
        let mut i: usize = 0;
        while i < vks.len()
            invariant
                i <= vks.len(),
                set == names(vks@),
                active == name_of(*current_vk),
                stays == |id: Seq<char>| Some(id) != active,
                to_release == |id: Seq<char>| release(id),
                self.port() == old(self).port(),
                self.pending() == old(self).pending() + set.take(i as int).filter(
                    stays,
                ).map_values(to_release),
                member == (active is Some && set.take(i as int).contains(active->0)),
            decreases vks.len() - i,
        {
            let ghost seen = set.take(i as int);
            proof {
                assert(set.take(i as int + 1) =~= seen.push(set[i as int]));
                seen.lemma_filter_push(set[i as int], stays);
            }
            let is_current = match current_vk {
                Some(current) => vks[i] == *current,
                None => false,
            };
            if is_current {
                member = true;
                assert(seen.push(set[i as int]).contains(active->0)) by {
                    assert(seen.push(set[i as int])[i as int] == active->0);
                }
            } else {
                self.release_vk(vks[i].as_str());
                assert(seen.filter(stays).push(set[i as int]).map_values(to_release)
                    =~= seen.filter(stays).map_values(to_release).push(release(set[i as int])));
                assert(active is Some && seen.contains(active->0) <==> active is Some
                    && seen.push(set[i as int]).contains(active->0)) by {
                    if active is Some && seen.push(set[i as int]).contains(active->0) {
                        let k = choose|k: int|
                            0 <= k < seen.push(set[i as int]).len() && seen.push(
                                set[i as int],
                            )[k] == active->0;
                        assert(seen[k] == active->0);
                    }
                    if active is Some && seen.contains(active->0) {
                        let k = choose|k: int| 0 <= k < seen.len() && seen[k] == active->0;
                        assert(seen.push(set[i as int])[k] == active->0);
                    }
                }
            }
            i += 1;
        }
        assert(set.take(i as int) =~= set);
        if member {
            match current_vk {
                Some(current) => self.press_vk(current.as_str()),
                None => {},
            }
        }
    }

    /// Takes the oldest recorded command, for the transport to send.
    pub fn next_command(&mut self) -> (next: Option<Command>)
        ensures
            final(self).port() == old(self).port(),
            old(self).pending().len() == 0 ==> next is None && final(self).pending() == old(
                self,
            ).pending(),
            old(self).pending().len() > 0 ==> next is Some && next->0@ == old(self).pending()[0]
                && final(self).pending() == old(self).pending().drop_first(),
    {
        let next = self.outbox.pop_front();
        assert(self.outbox@.map_values(|c: Command| c@) =~= if old(self).outbox@.len() > 0 {
            old(self).outbox@.map_values(|c: Command| c@).drop_first()
        } else {
            old(self).outbox@.map_values(|c: Command| c@)
        });
        next
    }

    /// Decides the next move while a connection is being made. The one who
    /// owns the socket starts a clock, reports it with `Tick`, does what it is
    /// told and reports how that went: an attempt is answered with `Connected`
    /// or `Refused`, and a sleep with the next `Tick`. Reconnecting after a
    /// failed write goes the same way, with a new clock.
    pub fn connect(event: ConnectEvent) -> (action: ConnectAction)
        ensures
            action == connect_step(event),
    {
        match event {
            ConnectEvent::Tick { elapsed_ms } => {
                if elapsed_ms >= RETRY_TIMEOUT_MS {
                    ConnectAction::GiveUp
                } else {
                    ConnectAction::Attempt { timeout_ms: CONNECT_TIMEOUT_MS }
                }
            },
            ConnectEvent::Refused => ConnectAction::Sleep { interval_ms: RETRY_INTERVAL_MS },
            ConnectEvent::Connected => ConnectAction::Ready,
        }
    }

    /// Judges a write of a command's wire text, `expected` bytes long.
    pub fn written(expected: usize, outcome: WriteOutcome) -> (verdict: WriteVerdict)
        ensures
            verdict == write_verdict(expected, outcome),
    {
        match outcome {
            WriteOutcome::Wrote(written) => {
                if written == expected {
                    WriteVerdict::Sent
                } else {
                    WriteVerdict::Partial { written, expected }
                }
            },
            WriteOutcome::Failed => WriteVerdict::Reconnect,
        }
    }
}

} // verus!
