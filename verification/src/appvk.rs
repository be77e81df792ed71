//! The watch session: which commands a change of identifier calls for.
//!
//! Each watched set is a state machine of its own, with the active virtual key
//! as its state. A raw identifier is classified against the set; where the
//! result differs from the active key, the old key is released, the new one is
//! pressed, and the result becomes the active key. The session holds two such
//! machines, one for the frontmost application and one for the keyboard input
//! source, and a change on one never touches the other.

use vstd::prelude::*;

use crate::kanata::{init_commands, startup_press, startup_releases, Kanata};
use crate::message::{press, release, Action, CommandView};
use crate::util::{classify, name_of, names, vk};

verus! {

/// The commands that a change of the active key from `old` to `new` calls
/// for: none where the two are equal; otherwise a release of `old`, if there
/// is one, followed by a press of `new`, if there is one.
pub open spec fn change_commands(old: Option<Seq<char>>, new: Option<Seq<char>>) -> Seq<
    CommandView,
> {
    if old == new {
        Seq::empty()
    } else {
        let released = match old {
            Some(name) => seq![release(name)],
            None => Seq::empty(),
        };
        match new {
            Some(name) => released.push(press(name)),
            None => released,
        }
    }
}

/// One watched set with its active key, as a value of the model.
pub struct WatchView {
    pub set: Seq<Seq<char>>,
    pub active: Option<Seq<char>>,
}

impl WatchView {
    /// The active key, if there is one, is an identifier of the set.
    pub open spec fn wf(self) -> bool {
        self.active matches Some(name) ==> self.set.contains(name)
    }

    /// The watched set at startup, where the source reports `current`.
    pub open spec fn start(set: Seq<Seq<char>>, current: Option<Seq<char>>) -> WatchView {
        WatchView {
            set,
            active: match current {
                Some(id) => classify(set, id),
                None => None,
            },
        }
    }

    /// The state after the raw identifier `id` has arrived.
    pub open spec fn next(self, id: Seq<char>) -> WatchView {
        WatchView { set: self.set, active: classify(self.set, id) }
    }

    /// The commands that the arrival of the raw identifier `id` calls for.
    pub open spec fn commands(self, id: Seq<char>) -> Seq<CommandView> {
        change_commands(self.active, classify(self.set, id))
    }

    /// The state after the raw identifiers `ids` have arrived, in this order.
    pub open spec fn after(self, ids: Seq<Seq<char>>) -> WatchView
        decreases ids.len(),
    {
        if ids.len() == 0 {
            self
        } else {
            self.after(ids.drop_last()).next(ids.last())
        }
    }

    /// All the commands that the raw identifiers `ids` call for as they
    /// arrive in this order, oldest first.
    pub open spec fn trace(self, ids: Seq<Seq<char>>) -> Seq<CommandView>
        decreases ids.len(),
    {
        if ids.len() == 0 {
            Seq::empty()
        } else {
            self.trace(ids.drop_last()) + self.after(ids.drop_last()).commands(ids.last())
        }
    }
}

/// The key that the daemon holds for a watched set once it has obeyed
/// `commands`, where it held `active` before.
pub open spec fn held_after(active: Option<Seq<char>>, commands: Seq<CommandView>) -> Option<
    Seq<char>,
> {
    if commands.len() == 0 {
        active
    } else {
        match commands.last().action {
            Action::Press => Some(commands.last().name),
            Action::Release => None,
        }
    }
}

/// Presses and releases take turns in `commands`, for a watched set whose
/// active key was `active` before: every press comes when no key is held, and
/// every release names the key that is held.
pub open spec fn alternates(active: Option<Seq<char>>, commands: Seq<CommandView>) -> bool {
    forall|i: int|
        0 <= i < commands.len() ==> match (#[trigger] commands[i]).action {
            Action::Press => held_after(active, commands.take(i)) is None,
            Action::Release => held_after(active, commands.take(i)) == Some(commands[i].name),
        }
}

/// How many presses `commands` holds.
pub open spec fn presses(commands: Seq<CommandView>) -> nat {
    commands.filter(|c: CommandView| c.action == Action::Press).len()
}

/// How many releases `commands` holds.
pub open spec fn releases(commands: Seq<CommandView>) -> nat {
    commands.filter(|c: CommandView| c.action == Action::Release).len()
}

/// The number of keys in `active`: one or none.
pub open spec fn held(active: Option<Seq<char>>) -> int {
    if active is Some {
        1
    } else {
        0
    }
}

/// A raw identifier that arrives twice in a row has its effect the first
/// time: the second arrival calls for no command and leaves the state as the
/// first left it.
pub proof fn lemma_repeat_is_silent(watch: WatchView, id: Seq<char>)
    ensures
        watch.next(id).commands(id) == Seq::<CommandView>::empty(),
        watch.next(id).next(id) == watch.next(id),
        watch.trace(seq![id, id]) == watch.commands(id),
        watch.after(seq![id, id]) == watch.next(id),
{
    let none = Seq::<Seq<char>>::empty();
    let once = seq![id];
    let twice = seq![id, id];
    assert(once.drop_last() =~= none);
    assert(twice.drop_last() =~= once);
    assert(watch.after(none) == watch);
    assert(watch.trace(none) == Seq::<CommandView>::empty());
    assert(watch.after(once) == watch.next(id));
    assert(watch.trace(once) =~= watch.commands(id));
    assert(watch.trace(twice) =~= watch.commands(id));
}

/// The commands of a run take turns, and the key that the daemon holds after
/// them is the active key of the state that the run ends in.
pub proof fn lemma_trace_alternates(watch: WatchView, ids: Seq<Seq<char>>)
    ensures
        alternates(watch.active, watch.trace(ids)),
        held_after(watch.active, watch.trace(ids)) == watch.after(ids).active,
    decreases ids.len(),
{
    if ids.len() > 0 {
        lemma_trace_alternates(watch, ids.drop_last());
        let before = watch.trace(ids.drop_last());
        let state = watch.after(ids.drop_last());
        let step = state.commands(ids.last());
        let all = watch.trace(ids);
        assert(all == before + step);
        assert forall|i: int| 0 <= i < all.len() implies match (#[trigger] all[i]).action {
            Action::Press => held_after(watch.active, all.take(i)) is None,
            Action::Release => held_after(watch.active, all.take(i)) == Some(all[i].name),
        } by {
            if i < before.len() {
                assert(all.take(i) =~= before.take(i));
                assert(all[i] == before[i]);
            } else {
                let j = i - before.len();
                assert(all[i] == step[j]);
                assert(all.take(i) =~= before + step.take(j));
                if j == 0 {
                    assert(before + step.take(0) =~= before);
                }
            }
        }
    }
}

/// At most one key of a watched set is held at any time. Count the key that
/// was active when the run began as one press; then at every point of the
/// run, whether between two changes or between the two commands of one, the
/// presses so far exceed the releases so far by one or by nothing, and at the
/// end of the run by one exactly where a key is active.
pub proof fn lemma_at_most_one_active(watch: WatchView, ids: Seq<Seq<char>>, sent: int)
    requires
        0 <= sent <= watch.trace(ids).len(),
    ensures
        0 <= held(watch.active) + presses(watch.trace(ids).take(sent)) - releases(
            watch.trace(ids).take(sent),
        ) <= 1,
        held(watch.active) + presses(watch.trace(ids)) - releases(watch.trace(ids)) == held(
            watch.after(ids).active,
        ),
{
    let all = watch.trace(ids);
    lemma_trace_alternates(watch, ids);
    lemma_alternating_balance(watch.active, all, sent);
    lemma_alternating_balance(watch.active, all, all.len() as int);
    assert(all.take(all.len() as int) =~= all);
}

/// Where presses and releases take turns, the presses among the first `n`
/// commands exceed the releases among them by one where a key is held after
/// them, and by nothing where none is, the key held before counted as a press.
pub proof fn lemma_alternating_balance(
    active: Option<Seq<char>>,
    commands: Seq<CommandView>,
    n: int,
)
    requires
        alternates(active, commands),
        0 <= n <= commands.len(),
    ensures
        held(active) + presses(commands.take(n)) - releases(commands.take(n)) == held(
            held_after(active, commands.take(n)),
        ),
    decreases n,
{
    let is_press = |c: CommandView| c.action == Action::Press;
    let is_release = |c: CommandView| c.action == Action::Release;
    if n == 0 {
        assert(commands.take(0) =~= Seq::<CommandView>::empty());
        reveal(Seq::filter);
        assert(commands.take(0).filter(is_press).len() == 0);
        assert(commands.take(0).filter(is_release).len() == 0);
    } else {
        lemma_alternating_balance(active, commands, n - 1);
        let before = commands.take(n - 1);
        let last = commands[n - 1];
        assert(commands.take(n) =~= before.push(last));
        before.lemma_filter_push(last, is_press);
        before.lemma_filter_push(last, is_release);
        assert(commands[n - 1] == last);
    }
}

/// Two sequences of commands that each take turns do so one after the
/// other, where the second begins with the key held that the first ends with.
pub proof fn lemma_alternates_concat(
    active: Option<Seq<char>>,
    first: Seq<CommandView>,
    second: Seq<CommandView>,
)
    requires
        alternates(active, first),
        alternates(held_after(active, first), second),
    ensures
        alternates(active, first + second),
        held_after(active, first + second) == held_after(held_after(active, first), second),
{
    let all = first + second;
    assert forall|i: int| 0 <= i < all.len() implies match (#[trigger] all[i]).action {
        Action::Press => held_after(active, all.take(i)) is None,
        Action::Release => held_after(active, all.take(i)) == Some(all[i].name),
    } by {
        if i < first.len() {
            assert(all.take(i) =~= first.take(i));
            assert(all[i] == first[i]);
        } else {
            let j = i - first.len();
            assert(all[i] == second[j]);
            assert(all.take(i) =~= first + second.take(j));
            if j == 0 {
                assert(first + second.take(0) =~= first);
            }
        }
    }
}

/// At most one key of a watched set is held from the startup press on.
/// Take a session that starts on `set` with the source reporting `current`,
/// and leave the startup releases aside, which clear what the daemon may hold
/// from earlier and answer no press of this session. In what is recorded
/// after them, the startup press and the commands of the run, the presses so
/// far exceed the releases so far by one or by nothing at every point, and at
/// the end by one exactly where a key is active.
pub proof fn lemma_session_at_most_one_active(
    set: Seq<Seq<char>>,
    current: Option<Seq<char>>,
    ids: Seq<Seq<char>>,
    sent: int,
)
    requires
        0 <= sent <= (startup_press(set, WatchView::start(set, current).active)
            + WatchView::start(set, current).trace(ids)).len(),
    ensures
        0 <= presses(
            (startup_press(set, WatchView::start(set, current).active) + WatchView::start(
                set,
                current,
            ).trace(ids)).take(sent),
        ) - releases(
            (startup_press(set, WatchView::start(set, current).active) + WatchView::start(
                set,
                current,
            ).trace(ids)).take(sent),
        ) <= 1,
        presses(
            startup_press(set, WatchView::start(set, current).active) + WatchView::start(
                set,
                current,
            ).trace(ids),
        ) - releases(
            startup_press(set, WatchView::start(set, current).active) + WatchView::start(
                set,
                current,
            ).trace(ids),
        ) == held(WatchView::start(set, current).after(ids).active),
{
    let watch = WatchView::start(set, current);
    let opening = startup_press(set, watch.active);
    let recorded = opening + watch.trace(ids);
    assert(alternates(None, opening) && held_after(None, opening) == watch.active) by {
        if opening.len() > 0 {
            assert(opening.take(0) =~= Seq::<CommandView>::empty());
        }
    }
    lemma_trace_alternates(watch, ids);
    lemma_alternates_concat(None, opening, watch.trace(ids));
    lemma_alternating_balance(None, recorded, sent);
    lemma_alternating_balance(None, recorded, recorded.len() as int);
    assert(recorded.take(recorded.len() as int) =~= recorded);
}

/// The startup commands hold as many releases as the set has identifiers
/// other than the active key, and one press or none. So the count of presses
/// less releases over all that a session records, startup releases included,
/// falls short of the keys held by the number of those releases.
pub proof fn lemma_startup_balance(set: Seq<Seq<char>>, active: Option<Seq<char>>)
    ensures
        releases(init_commands(set, active)) == startup_releases(set, active).len(),
        presses(init_commands(set, active)) == startup_press(set, active).len(),
        startup_press(set, active).len() <= 1,
{
    let is_press = |c: CommandView| c.action == Action::Press;
    let is_release = |c: CommandView| c.action == Action::Release;
    let opening = startup_releases(set, active);
    let closing = startup_press(set, active);
    lemma_filter_all_or_none(opening, Action::Release);
    lemma_filter_all_or_none(closing, Action::Press);
    Seq::filter_distributes_over_add(opening, closing, is_press);
    Seq::filter_distributes_over_add(opening, closing, is_release);
}

/// Commands that all have the action `action` are all presses and no
/// releases, or the other way round.
proof fn lemma_filter_all_or_none(commands: Seq<CommandView>, action: Action)
    requires
        forall|i: int| 0 <= i < commands.len() ==> (#[trigger] commands[i]).action == action,
    ensures
        presses(commands) == (if action == Action::Press {
            commands.len()
        } else {
            0
        }),
        releases(commands) == (if action == Action::Release {
            commands.len()
        } else {
            0
        }),
    decreases commands.len(),
{
    let is_press = |c: CommandView| c.action == Action::Press;
    let is_release = |c: CommandView| c.action == Action::Release;
    reveal(Seq::filter);
    if commands.len() > 0 {
        lemma_filter_all_or_none(commands.drop_last(), action);
        assert(commands.drop_last().push(commands.last()) =~= commands);
        commands.drop_last().lemma_filter_push(commands.last(), is_press);
        commands.drop_last().lemma_filter_push(commands.last(), is_release);
    }
}

/// A run names only identifiers of the watched set, where the key that was
/// active when it began is one.
pub proof fn lemma_trace_names_members(watch: WatchView, ids: Seq<Seq<char>>, i: int)
    requires
        watch.wf(),
        0 <= i < watch.trace(ids).len(),
    ensures
        watch.set.contains(watch.trace(ids)[i].name),
        watch.after(ids).wf(),
        watch.after(ids).set == watch.set,
    decreases ids.len(),
{
    if ids.len() > 0 {
        let before = watch.trace(ids.drop_last());
        lemma_run_keeps_set(watch, ids.drop_last());
        if i < before.len() {
            lemma_trace_names_members(watch, ids.drop_last(), i);
        }
    }
}

/// A run leaves the watched set as it is, and its active key a member of it.
pub proof fn lemma_run_keeps_set(watch: WatchView, ids: Seq<Seq<char>>)
    requires
        watch.wf(),
    ensures
        watch.after(ids).wf(),
        watch.after(ids).set == watch.set,
    decreases ids.len(),
{
    if ids.len() > 0 {
        lemma_run_keeps_set(watch, ids.drop_last());
    }
}

/// One watched set and the virtual key of it that is active.
pub struct Watch {
    ids: Vec<String>,
    active: Option<String>,
}

impl View for Watch {
    type V = WatchView;

    closed spec fn view(&self) -> WatchView {
        WatchView { set: names(self.ids@), active: name_of(self.active) }
    }
}

fn same_key(a: &Option<String>, b: &Option<String>) -> (same: bool)
    ensures
        same == (name_of(*a) == name_of(*b)),
{
    match (a, b) {
        (Some(x), Some(y)) => *x == *y,
        (None, None) => true,
        _ => false,
    }
}

impl Watch {
    #[verifier::type_invariant]
    spec fn inv(self) -> bool {
        self@.wf()
    }

    /// Starts watching the set `ids`, of which the source reports `current`
    /// as the identifier in force, and records the startup commands that make
    /// the daemon agree.
    pub fn new(ids: Vec<String>, current: Option<String>, kanata: &mut Kanata) -> (watch: Watch)
        ensures
            watch@ == WatchView::start(names(ids@), name_of(current)),
            watch@.wf(),
            final(kanata).port() == old(kanata).port(),
            final(kanata).pending() == old(kanata).pending() + init_commands(
                watch@.set,
                watch@.active,
            ),
    {
        let active = match current {
            Some(id) => vk(&ids, id),
            None => None,
        };
        kanata.init_vks(&ids, &active);
        Watch { ids, active }
    }

    /// The identifiers of the watched set, in their order.
    pub fn ids(&self) -> (ids: &Vec<String>)
        ensures
            names(ids@) == self@.set,
    {
        &self.ids
    }

    /// The active key: none, or an identifier of the set.
    pub fn active(&self) -> (active: &Option<String>)
        ensures
            name_of(*active) == self@.active,
            self@.wf(),
    {
        proof {
            use_type_invariant(self);
        }
        &self.active
    }

    /// Takes the raw identifier `id` from the source: classifies it, records
    /// the commands that the change calls for, and makes the result the
    /// active key.
    pub fn update(&mut self, id: String, kanata: &mut Kanata)
        ensures
            final(self)@ == old(self)@.next(id@),
            final(self)@.wf(),
            final(kanata).port() == old(kanata).port(),
            final(kanata).pending() == old(kanata).pending() + old(self)@.commands(id@),
    {
        let new_vk = vk(&self.ids, id);
        if same_key(&self.active, &new_vk) {
            assert(old(kanata).pending() + Seq::<CommandView>::empty() =~= old(kanata).pending());
            return ;
        }
        if let Some(old_vk) = &self.active {
            kanata.release_vk(old_vk.as_str());
        }
        if let Some(vk) = &new_vk {
            kanata.press_vk(vk.as_str());
        }
        assert(kanata.pending() =~= old(kanata).pending() + old(self)@.commands(id@));
        self.active = new_vk;
    }
}

/// A change reported by one of the two sources, with the raw identifier that
/// is now in force.
#[derive(Clone, Debug, PartialEq, Eq)]
pub enum Change {
    /// Another application came to the front.
    App(String),
    /// Another keyboard input source was selected.
    InputSource(String),
}

/// A change as a value of the model.
pub enum ChangeView {
    App(Seq<char>),
    InputSource(Seq<char>),
}

impl View for Change {
    type V = ChangeView;

    open spec fn view(&self) -> ChangeView {
        match self {
            Change::App(id) => ChangeView::App(id@),
            Change::InputSource(id) => ChangeView::InputSource(id@),
        }
    }
}

/// The session as a value of the model: the two watched sets side by side.
pub struct AppvkView {
    pub app: WatchView,
    pub input_source: WatchView,
}

impl AppvkView {
    /// The state after `change` has arrived: the set that the change belongs
    /// to moves on, the other one stays as it is.
    pub open spec fn next(self, change: ChangeView) -> AppvkView {
        match change {
            ChangeView::App(id) => AppvkView {
                app: self.app.next(id),
                input_source: self.input_source,
            },
            ChangeView::InputSource(id) => AppvkView {
                app: self.app,
                input_source: self.input_source.next(id),
            },
        }
    }

    /// The commands that the arrival of `change` calls for: those of the set
    /// that the change belongs to.
    pub open spec fn commands(self, change: ChangeView) -> Seq<CommandView> {
        match change {
            ChangeView::App(id) => self.app.commands(id),
            ChangeView::InputSource(id) => self.input_source.commands(id),
        }
    }
}

impl AppvkView {
    /// The state after `changes` have arrived, in this order.
    pub open spec fn after(self, changes: Seq<ChangeView>) -> AppvkView
        decreases changes.len(),
    {
        if changes.len() == 0 {
            self
        } else {
            self.after(changes.drop_last()).next(changes.last())
        }
    }

    /// All the commands that `changes` call for as they arrive in this
    /// order, oldest first.
    pub open spec fn trace(self, changes: Seq<ChangeView>) -> Seq<CommandView>
        decreases changes.len(),
    {
        if changes.len() == 0 {
            Seq::empty()
        } else {
            self.trace(changes.drop_last()) + self.after(changes.drop_last()).commands(
                changes.last(),
            )
        }
    }
}

/// The raw identifiers that `changes` report of the frontmost application,
/// in their order.
pub open spec fn app_ids(changes: Seq<ChangeView>) -> Seq<Seq<char>> {
    changes.filter_map(
        |c: ChangeView|
            match c {
                ChangeView::App(id) => Some(id),
                ChangeView::InputSource(_) => None,
            },
    )
}

/// The raw identifiers that `changes` report of the input source, in their
/// order.
pub open spec fn input_source_ids(changes: Seq<ChangeView>) -> Seq<Seq<char>> {
    changes.filter_map(
        |c: ChangeView|
            match c {
                ChangeView::App(_) => None,
                ChangeView::InputSource(id) => Some(id),
            },
    )
}

/// The two watched sets do not know of each other. However the changes of
/// the two sources are interleaved, each set ends where its own changes
/// alone would have brought it.
pub proof fn lemma_streams_independent(session: AppvkView, changes: Seq<ChangeView>)
    ensures
        session.after(changes).app == session.app.after(app_ids(changes)),
        session.after(changes).input_source == session.input_source.after(
            input_source_ids(changes),
        ),
    decreases changes.len(),
{
    if changes.len() > 0 {
        let earlier = changes.drop_last();
        lemma_streams_independent(session, earlier);
        match changes.last() {
            ChangeView::App(id) => {
                assert(app_ids(changes) =~= app_ids(earlier).push(id));
                assert(app_ids(changes).drop_last() =~= app_ids(earlier));
                assert(input_source_ids(changes) =~= input_source_ids(earlier));
            },
            ChangeView::InputSource(id) => {
                assert(input_source_ids(changes) =~= input_source_ids(earlier).push(id));
                assert(input_source_ids(changes).drop_last() =~= input_source_ids(earlier));
                assert(app_ids(changes) =~= app_ids(earlier));
            },
        }
    }
}

/// The commands that a change calls for, at whatever point of an interleaved
/// run it arrives, are those that its own set would have recorded had the
/// other source been silent all along.
pub proof fn lemma_commands_ignore_other_stream(
    session: AppvkView,
    changes: Seq<ChangeView>,
    change: ChangeView,
)
    ensures
        session.after(changes).commands(change) == match change {
            ChangeView::App(id) => session.app.after(app_ids(changes)).commands(id),
            ChangeView::InputSource(id) => session.input_source.after(
                input_source_ids(changes),
            ).commands(id),
        },
{
    lemma_streams_independent(session, changes);
}

/// Two changes of different sources may arrive in either order: the session
/// ends in the same state, and each of the two calls for the same commands.
pub proof fn lemma_streams_commute(session: AppvkView, app_id: Seq<char>, source_id: Seq<char>)
    ensures
        session.next(ChangeView::App(app_id)).next(ChangeView::InputSource(source_id))
            == session.next(ChangeView::InputSource(source_id)).next(ChangeView::App(app_id)),
        session.next(ChangeView::InputSource(source_id)).commands(ChangeView::App(app_id))
            == session.commands(ChangeView::App(app_id)),
        session.next(ChangeView::App(app_id)).commands(ChangeView::InputSource(source_id))
            == session.commands(ChangeView::InputSource(source_id)),
{
}

/// The watch session: the application set and the input source set, each
/// with its active key.
pub struct Appvk {
    app: Watch,
    input_source: Watch,
}

impl View for Appvk {
    type V = AppvkView;

    closed spec fn view(&self) -> AppvkView {
        AppvkView { app: self.app@, input_source: self.input_source@ }
    }
}

impl Appvk {
    /// Starts the session on the two watched sets. `app` and `input_source`
    /// are what the sources report at startup, none where a source has
    /// nothing to report. The startup commands of the application set are
    /// recorded first, then those of the input source set.
    pub fn new(
        bundle_ids: Vec<String>,
        input_source_ids: Vec<String>,
        app: Option<String>,
        input_source: Option<String>,
        kanata: &mut Kanata,
    ) -> (session: Appvk)
        ensures
            session@.app == WatchView::start(names(bundle_ids@), name_of(app)),
            session@.input_source == WatchView::start(
                names(input_source_ids@),
                name_of(input_source),
            ),
            final(kanata).port() == old(kanata).port(),
            final(kanata).pending() == old(kanata).pending() + init_commands(
                session@.app.set,
                session@.app.active,
            ) + init_commands(session@.input_source.set, session@.input_source.active),
    {
        let app = Watch::new(bundle_ids, app, kanata);
        let input_source = Watch::new(input_source_ids, input_source, kanata);
        Appvk { app, input_source }
    }

    /// The application set and its active key.
    pub fn app(&self) -> (watch: &Watch)
        ensures
            watch@ == self@.app,
    {
        &self.app
    }

    /// The input source set and its active key.
    pub fn input_source(&self) -> (watch: &Watch)
        ensures
            watch@ == self@.input_source,
    {
        &self.input_source
    }

    /// Takes one change from either source and records the commands it calls
    /// for.
    pub fn handle(&mut self, change: Change, kanata: &mut Kanata)
        ensures
            final(self)@ == old(self)@.next(change@),
            final(kanata).port() == old(kanata).port(),
            final(kanata).pending() == old(kanata).pending() + old(self)@.commands(change@),
    {
        match change {
            Change::App(id) => self.app.update(id, kanata),
            Change::InputSource(id) => self.input_source.update(id, kanata),
        }
    }
}

} // verus!
