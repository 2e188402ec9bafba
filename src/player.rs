use vstd::prelude::*;
use crate::commands::{after_skip, Command, CommandTable};
use crate::duration::{duration_to_seconds, seconds_of};
use crate::models::Video;
use crate::playlist::room_view;

verus! {

/// How long a worker with nothing to play waits before it looks again.
pub const IDLE_BACKOFF_MILLIS: u64 = 1000;

/// How often a playing worker checks the clock and the command table.
pub const POLL_MILLIS: u64 = 500;

/// The key of a room in the command table: its name, or the empty string
/// for the queue without a room.
pub open spec fn key_view(room: Option<Seq<char>>) -> Seq<char> {
    match room {
        Some(r) => r,
        None => Seq::empty(),
    }
}

pub fn room_key(room: &Option<String>) -> (r: String)
    ensures
        r@ == key_view(room_view(*room)),
{
    match room {
        Some(r) => r.clone(),
        None => String::new(),
    }
}

/// Where a room's worker stands.
#[derive(Debug, Clone, Copy, PartialEq, Eq, Structural)]
pub enum Phase {
    /// Nothing was left to play; waiting out the backoff.
    Idle,
    /// Waiting for storage to name the next video.
    Selecting,
    /// Playing `video`, which lasts `seconds`.
    Playing { video: i32, seconds: u64 },
    /// Waiting for storage to record `video` as played.
    Completing { video: i32 },
}

/// What the worker asks its driver to do next.
#[derive(Debug, Clone, Copy, PartialEq, Eq, Structural)]
pub enum Action {
    /// Look up the oldest unplayed video of the room; answer with `Selected`.
    Select,
    /// Record that the video starts now; then answer with `Tick`.
    StartPlaying(i32),
    /// Sleep this many milliseconds; then answer with `Tick`.
    Wait(u64),
    /// Record the video as played; answer with `Marked`.
    MarkPlayed(i32),
    /// Sleep this many milliseconds; then answer with `Woke`.
    Backoff(u64),
}

/// The video that storage named as the next one.
pub struct NextVideo {
    pub id: i32,
    pub duration: String,
}

/// What happened since the last action.
pub enum Event {
    Woke,
    Selected(Option<NextVideo>),
    /// Whole seconds since the current video started.
    Tick(u64),
    Marked,
    StorageFailed,
}

/// The action that a phase waits on, asked for again when an event comes
/// that does not fit the phase.
pub open spec fn pending(p: Phase) -> Action {
    match p {
        Phase::Idle => Action::Backoff(IDLE_BACKOFF_MILLIS),
        Phase::Selecting => Action::Select,
        Phase::Playing { .. } => Action::Wait(POLL_MILLIS),
        Phase::Completing { video } => Action::MarkPlayed(video),
    }
}

/// One step of the playback protocol: the next phase, the action, and the
/// command table afterwards, for the worker of the room with key `key`.
///
/// A video whose duration does not parse is marked played at once, so that
/// the queue does not stall on it. When a video starts, the room's command
/// is set back to `Play`: a skip ends at most the video that was playing.
pub open spec fn next_step(p: Phase, key: Seq<char>, e: Event, t: Map<Seq<char>, Command>) -> (
    Phase,
    Action,
    Map<Seq<char>, Command>,
) {
    match e {
        Event::StorageFailed => (Phase::Idle, Action::Backoff(IDLE_BACKOFF_MILLIS), t),
        Event::Woke => match p {
            Phase::Idle => (Phase::Selecting, Action::Select, t),
            _ => (p, pending(p), t),
        },
        Event::Selected(found) => match p {
            Phase::Selecting => match found {
                None => (Phase::Idle, Action::Backoff(IDLE_BACKOFF_MILLIS), t),
                Some(v) => match seconds_of(v.duration@) {
                    Ok(s) => (
                        Phase::Playing { video: v.id, seconds: s },
                        Action::StartPlaying(v.id),
                        t.insert(key, Command::Play),
                    ),
                    Err(_) => (Phase::Completing { video: v.id }, Action::MarkPlayed(v.id), t),
                },
            },
            _ => (p, pending(p), t),
        },
        Event::Tick(elapsed) => match p {
            Phase::Playing { video, seconds } => if elapsed >= seconds {
                (Phase::Completing { video }, Action::MarkPlayed(video), t)
            } else if !t.contains_key(key) {
                (p, Action::Wait(POLL_MILLIS), t.insert(key, Command::Play))
            } else if t[key] == Command::Skip {
                (Phase::Completing { video }, Action::MarkPlayed(video), t)
            } else {
                (p, Action::Wait(POLL_MILLIS), t)
            },
            _ => (p, pending(p), t),
        },
        Event::Marked => match p {
            Phase::Completing { .. } => (Phase::Selecting, Action::Select, t),
            _ => (p, pending(p), t),
        },
    }
}

/// The worker of one room: it plays the room's queue video by video.
pub struct RoomWorker {
    room: Option<String>,
    key: String,
    phase: Phase,
}

impl RoomWorker {
    pub closed spec fn wf(&self) -> bool {
        self.key@ == key_view(room_view(self.room))
    }

    pub closed spec fn room_of(&self) -> Option<String> {
        self.room
    }

    pub closed spec fn phase_view(&self) -> Phase {
        self.phase
    }

    pub closed spec fn key_of(&self) -> Seq<char> {
        self.key@
    }

    /// A worker for `room` that starts by looking for a video.
    pub fn new(room: Option<String>) -> (r: Self)
        ensures
            r.wf(),
            r.room_of() == room,
            r.phase_view() == Phase::Selecting,
            r.key_of() == key_view(room_view(room)),
    {
        let key = room_key(&room);
        RoomWorker { room, key, phase: Phase::Selecting }
    }

    /// The room this worker plays.
    pub fn room(&self) -> (r: &Option<String>)
        ensures
            *r == self.room_of(),
    {
        &self.room
    }

    pub fn phase(&self) -> (r: Phase)
        ensures
            r == self.phase_view(),
    {
        self.phase
    }

    /// Takes one event and the shared table, moves to the next phase and
    /// returns the action that the driver is to carry out.
    pub fn step(&mut self, event: Event, table: &mut CommandTable) -> (r: Action)
        requires
            old(self).wf(),
            old(table).wf(),
        ensures
            final(self).wf(),
            final(table).wf(),
            final(self).room_of() == old(self).room_of(),
            final(self).key_of() == old(self).key_of(),
            (final(self).phase_view(), r, final(table)@) == next_step(
                old(self).phase_view(),
                old(self).key_of(),
                event,
                old(table)@,
            ),
    {
        let ghost e = event;
        match event {
            Event::StorageFailed => {
                self.phase = Phase::Idle;
                Action::Backoff(IDLE_BACKOFF_MILLIS)
            },
            Event::Woke => match self.phase {
                Phase::Idle => {
                    self.phase = Phase::Selecting;
                    Action::Select
                },
                _ => self.pending_action(),
            },
            Event::Selected(found) => match self.phase {
                Phase::Selecting => match found {
                    None => {
                        self.phase = Phase::Idle;
                        Action::Backoff(IDLE_BACKOFF_MILLIS)
                    },
                    Some(v) => match duration_to_seconds(&v.duration) {
                        Ok(s) => {
                            self.phase = Phase::Playing { video: v.id, seconds: s };
                            table.set(&self.key, Command::Play);
                            Action::StartPlaying(v.id)
                        },
                        Err(_) => {
                            self.phase = Phase::Completing { video: v.id };
                            Action::MarkPlayed(v.id)
                        },
                    },
                },
                _ => self.pending_action(),
            },
            Event::Tick(elapsed) => match self.phase {
                Phase::Playing { video, seconds } => {
                    if elapsed >= seconds {
                        self.phase = Phase::Completing { video };
                        Action::MarkPlayed(video)
                    } else {
                        match table.get(&self.key) {
                            None => {
                                table.initialize(&self.key);
                                Action::Wait(POLL_MILLIS)
                            },
                            Some(Command::Skip) => {
                                self.phase = Phase::Completing { video };
                                Action::MarkPlayed(video)
                            },
                            Some(Command::Play) => Action::Wait(POLL_MILLIS),
                        }
                    }
                },
                _ => self.pending_action(),
            },
            Event::Marked => match self.phase {
                Phase::Completing { .. } => {
                    self.phase = Phase::Selecting;
                    Action::Select
                },
                _ => self.pending_action(),
            },
        }
    }

    fn pending_action(&self) -> (r: Action)
        ensures
            r == pending(self.phase_view()),
    {
        match self.phase {
            Phase::Idle => Action::Backoff(IDLE_BACKOFF_MILLIS),
            Phase::Selecting => Action::Select,
            Phase::Playing { .. } => Action::Wait(POLL_MILLIS),
            Phase::Completing { video } => Action::MarkPlayed(video),
        }
    }
}

/// The event that answers a `Select` action: the video that storage named,
/// or none.
pub fn selected(video: Option<&Video>) -> (r: Event)
    ensures
        match video {
            Some(v) => r matches Event::Selected(Some(n)) && n.id == v.id && n.duration@ == v.duration@,
            None => r matches Event::Selected(None),
        },
{
    match video {
        Some(v) => Event::Selected(Some(NextVideo { id: v.id, duration: v.duration.clone() })),
        None => Event::Selected(None),
    }
}

/// The table after every room of `rooms` was given `Play`.
pub open spec fn seeded(t: Map<Seq<char>, Command>, rooms: Seq<String>) -> Map<Seq<char>, Command>
    decreases rooms.len(),
{
    if rooms.len() == 0 {
        t
    } else {
        seeded(t, rooms.drop_last()).insert(rooms.last()@, Command::Play)
    }
}

/// A fresh worker for `room`.
pub open spec fn starts(w: RoomWorker, room: Option<String>) -> bool {
    &&& w.wf()
    &&& w.room_of() == room
    &&& w.phase_view() == Phase::Selecting
}

/// Sets up playback for every room and for the queue without a room: each
/// gets `Play` in the table and a worker of its own, the rooms' workers in
/// the order of `rooms`, the one without a room last.
pub fn init_playlist_listener(table: &mut CommandTable, rooms: &Vec<String>) -> (workers: Vec<RoomWorker>)
    requires
        old(table).wf(),
    ensures
        final(table).wf(),
        final(table)@ == seeded(old(table)@, rooms@).insert(Seq::<char>::empty(), Command::Play),
        workers@.len() == rooms@.len() + 1,
        forall|i: int| 0 <= i < rooms@.len() ==> starts(#[trigger] workers@[i], Some(rooms@[i])),
        starts(workers@[rooms@.len() as int], None),
{
    let mut workers: Vec<RoomWorker> = Vec::new();
    let mut i: usize = 0;
    while i < rooms.len()
        invariant
            0 <= i <= rooms@.len(),
            table.wf(),
            table@ == seeded(old(table)@, rooms@.take(i as int)),
            workers@.len() == i,
            forall|j: int| 0 <= j < i ==> starts(#[trigger] workers@[j], Some(rooms@[j])),
        decreases rooms@.len() - i,
    {
        let name = rooms[i].clone();
        table.set(&name, Command::Play);
        workers.push(RoomWorker::new(Some(name)));
        proof {
            assert(rooms@.take(i + 1).drop_last() =~= rooms@.take(i as int));
        }
        i = i + 1;
    }
    assert(rooms@.take(i as int) =~= rooms@);
    let none = String::new();
    table.set(&none, Command::Play);
    workers.push(RoomWorker::new(None));
    workers
}

/// Asks the worker of `room` to end the video it is playing. A room that
/// has no entry in the table yet is left alone.
pub fn skip_video(table: &mut CommandTable, room: &Option<String>)
    requires
        old(table).wf(),
    ensures
        final(table).wf(),
        final(table)@ == after_skip(old(table)@, key_view(room_view(*room))),
{
    let key = room_key(room);
    table.skip(&key);
}

/// A skip while a video plays ends it at the worker's next poll, before its
/// duration has run out: the video goes to be marked played.
pub proof fn lemma_skip_ends_video(
    video: i32,
    seconds: u64,
    key: Seq<char>,
    t: Map<Seq<char>, Command>,
    elapsed: u64,
)
    requires
        t.contains_key(key),
        elapsed < seconds,
    ensures
        next_step(Phase::Playing { video, seconds }, key, Event::Tick(elapsed), after_skip(t, key))
            == (Phase::Completing { video }, Action::MarkPlayed(video), after_skip(t, key)),
{
}

/// A worker that starts a video leaves its room an entry in the table, so
/// that a skip during the video has something to set.
pub proof fn lemma_playing_has_entry(key: Seq<char>, t: Map<Seq<char>, Command>, found: NextVideo)
    ensures
        next_step(Phase::Selecting, key, Event::Selected(Some(found)), t).0 is Playing
            ==> next_step(Phase::Selecting, key, Event::Selected(Some(found)), t).2.contains_key(key),
{
}

/// A skip sent while no video plays does not reach the next video that
/// plays: starting it gives the same phase, action and table as without
/// the skip.
pub proof fn lemma_skip_while_idle(key: Seq<char>, t: Map<Seq<char>, Command>, found: NextVideo)
    requires
        seconds_of(found.duration@) is Ok,
    ensures
        next_step(Phase::Selecting, key, Event::Selected(Some(found)), after_skip(t, key))
            == next_step(Phase::Selecting, key, Event::Selected(Some(found)), t),
{
    assert(after_skip(t, key).insert(key, Command::Play) =~= t.insert(key, Command::Play));
}

/// The workers of two rooms do not affect each other: a step of one leaves
/// every other room's entry as it was, so that the other's next step comes
/// out the same as without it.
pub proof fn lemma_rooms_independent(
    pa: Phase,
    a: Seq<char>,
    ea: Event,
    pb: Phase,
    b: Seq<char>,
    eb: Event,
    t: Map<Seq<char>, Command>,
)
    requires
        a != b,
    ensures
        forall|k: Seq<char>| k != a ==> (#[trigger] next_step(pa, a, ea, t).2.contains_key(k)) == t.contains_key(k),
        forall|k: Seq<char>| k != a && t.contains_key(k) ==> #[trigger] next_step(pa, a, ea, t).2[k] == t[k],
        next_step(pb, b, eb, next_step(pa, a, ea, t).2).0 == next_step(pb, b, eb, t).0,
        next_step(pb, b, eb, next_step(pa, a, ea, t).2).1 == next_step(pb, b, eb, t).1,
{
    let t1 = next_step(pa, a, ea, t).2;
    assert(t1 == t || t1 == t.insert(a, Command::Play));
    assert(t1.contains_key(b) == t.contains_key(b));
    assert(t.contains_key(b) ==> t1[b] == t[b]);
}

/// A skip for a room that no worker has touched yet changes nothing; a
/// worker that polls afterwards finds no entry, sets `Play` and plays on.
pub proof fn lemma_skip_unknown_room(
    t: Map<Seq<char>, Command>,
    key: Seq<char>,
    video: i32,
    seconds: u64,
    elapsed: u64,
)
    requires
        !t.contains_key(key),
        elapsed < seconds,
    ensures
        after_skip(t, key) == t,
        next_step(Phase::Playing { video, seconds }, key, Event::Tick(elapsed), after_skip(t, key)) == (
            Phase::Playing { video, seconds },
            Action::Wait(POLL_MILLIS),
            t.insert(key, Command::Play),
        ),
{
}

} // verus!
