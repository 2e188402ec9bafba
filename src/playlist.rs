use vstd::prelude::*;
use crate::models::Video;

verus! {

/// The room of a video or of a worker, as a value.
pub open spec fn room_view(room: Option<String>) -> Option<Seq<char>> {
    match room {
        Some(r) => Some(r@),
        None => None,
    }
}

/// `v` waits to be played in the queue `room`.
pub open spec fn waiting(v: Video, room: Option<Seq<char>>) -> bool {
    !v.played && room_view(v.room) == room
}

/// Entry `i` is the one to play next in `room`: it waits there, none that
/// waits there was added earlier, and none before it in the store was
/// added at the same time.
pub open spec fn is_next(vs: Seq<Video>, room: Option<Seq<char>>, i: int) -> bool {
    &&& 0 <= i < vs.len()
    &&& waiting(vs[i], room)
    &&& forall|j: int| 0 <= j < vs.len() && waiting(#[trigger] vs[j], room) ==> vs[i].added_on <= vs[j].added_on
    &&& forall|j: int| 0 <= j < i && waiting(#[trigger] vs[j], room) ==> vs[i].added_on < vs[j].added_on
}

pub open spec fn none_waiting(vs: Seq<Video>, room: Option<Seq<char>>) -> bool {
    forall|j: int| 0 <= j < vs.len() ==> !waiting(#[trigger] vs[j], room)
}

/// The store after the video with `id` was marked as played.
pub open spec fn with_played(vs: Seq<Video>, id: i32) -> Seq<Video> {
    Seq::new(
        vs.len(),
        |j: int|
            if vs[j].id == id {
                Video { played: true, ..vs[j] }
            } else {
                vs[j]
            },
    )
}

/// `w` is `v` with its start of play recorded as `at`.
pub open spec fn marked_started(v: Video, w: Video, at: u64) -> bool {
    w == (Video { played_on: Some(at), ..v })
}

/// Whether two room values are the same queue.
pub fn same_room(a: &Option<String>, b: &Option<String>) -> (r: bool)
    ensures
        r == (room_view(*a) == room_view(*b)),
{
    match (a, b) {
        (Some(x), Some(y)) => *x == *y,
        (None, None) => true,
        _ => false,
    }
}

/// The videos of every room, in the order they were stored.
pub struct Playlist {
    pub videos: Vec<Video>,
}

impl Playlist {
    pub open spec fn view(&self) -> Seq<Video> {
        self.videos@
    }

    pub fn new() -> (r: Self)
        ensures
            r@ == Seq::<Video>::empty(),
    {
        Playlist { videos: Vec::new() }
    }

    /// Stores a video at the end.
    pub fn add(&mut self, video: Video)
        ensures
            final(self)@ == old(self)@.push(video),
    {
        self.videos.push(video);
    }

    /// The position of the oldest unplayed video of `room`; ties go to the
    /// one stored first. `None` when the room has nothing left to play.
    pub fn next_unplayed(&self, room: &Option<String>) -> (r: Option<usize>)
        ensures
            match r {
                Some(i) => is_next(self@, room_view(*room), i as int),
                None => none_waiting(self@, room_view(*room)),
            },
    {
        let ghost rv = room_view(*room);
        let mut best: Option<usize> = None;
        let mut i: usize = 0;
        while i < self.videos.len()
            invariant
                0 <= i <= self@.len(),
                rv == room_view(*room),
                match best {
                    Some(b) => is_next(self@.take(i as int), rv, b as int),
                    None => none_waiting(self@.take(i as int), rv),
                },
            decreases self@.len() - i,
        {
            let v = &self.videos[i];
            let ghost pre = self@.take(i as int);
            let ghost post = self@.take(i + 1);
            assert(post =~= pre.push(*v));
            if !v.played && same_room(&v.room, room) {
                match best {
                    Some(b) => {
                        if v.added_on < self.videos[b].added_on {
                            best = Some(i);
                        }
                    },
                    None => {
                        best = Some(i);
                    },
                }
            }
            i = i + 1;
        }
        assert(self@.take(i as int) =~= self@);
        best
    }

    /// Records that the video with `id` started to play at `at`.
    pub fn mark_started(&mut self, id: i32, at: u64)
        ensures
            final(self)@.len() == old(self)@.len(),
            forall|j: int| 0 <= j < old(self)@.len() ==> if (#[trigger] old(self)@[j]).id == id {
                marked_started(old(self)@[j], final(self)@[j], at)
            } else {
                final(self)@[j] == old(self)@[j]
            },
    {
        let mut i: usize = 0;
        while i < self.videos.len()
            invariant
                0 <= i <= self@.len(),
                self@.len() == old(self)@.len(),
                forall|j: int| 0 <= j < i ==> if (#[trigger] old(self)@[j]).id == id {
                    marked_started(old(self)@[j], self@[j], at)
                } else {
                    self@[j] == old(self)@[j]
                },
                forall|j: int| i <= j < self@.len() ==> self@[j] == old(self)@[j],
            decreases self@.len() - i,
        {
            if self.videos[i].id == id {
                self.videos[i].played_on = Some(at);
            }
            i = i + 1;
        }
    }

    /// Marks the video with `id` as played. Marking it again changes
    /// nothing.
    pub fn mark_played(&mut self, id: i32)
        ensures
            final(self)@ == with_played(old(self)@, id),
    {
        let mut i: usize = 0;
        while i < self.videos.len()
            invariant
                0 <= i <= self@.len(),
                self@.len() == old(self)@.len(),
                forall|j: int| 0 <= j < i ==> (#[trigger] self@[j]) == with_played(old(self)@, id)[j],
                forall|j: int| i <= j < self@.len() ==> self@[j] == old(self)@[j],
            decreases self@.len() - i,
        {
            if self.videos[i].id == id {
                self.videos[i].played = true;
            }
            i = i + 1;
        }
        assert(self@ =~= with_played(old(self)@, id));
    }
}

/// Marking a video played a second time changes nothing, and a video that
/// was marked played is never again the next one of any room.
pub proof fn lemma_mark_played_idempotent(vs: Seq<Video>, id: i32, room: Option<Seq<char>>, i: int)
    ensures
        with_played(with_played(vs, id), id) == with_played(vs, id),
        0 <= i < vs.len() && vs[i].id == id ==> !is_next(with_played(vs, id), room, i),
{
    assert(with_played(with_played(vs, id), id) =~= with_played(vs, id));
}

/// Each room's queue plays oldest first and nothing twice: once the next
/// video is marked played, what waits afterwards waited before, is another
/// video, and was added no earlier; the store's length does not change.
pub proof fn lemma_queue_order(vs: Seq<Video>, room: Option<Seq<char>>, i: int)
    requires
        is_next(vs, room, i),
    ensures
        with_played(vs, vs[i].id).len() == vs.len(),
        !waiting(with_played(vs, vs[i].id)[i], room),
        forall|j: int| 0 <= j < vs.len() && waiting(#[trigger] with_played(vs, vs[i].id)[j], room) ==> {
            &&& waiting(vs[j], room)
            &&& vs[j].id != vs[i].id
            &&& vs[i].added_on <= vs[j].added_on
        },
{
    let ws = with_played(vs, vs[i].id);
    assert forall|j: int| 0 <= j < vs.len() && waiting(#[trigger] ws[j], room) implies {
        &&& waiting(vs[j], room)
        &&& vs[j].id != vs[i].id
        &&& vs[i].added_on <= vs[j].added_on
    } by {
        assert(waiting(vs[j], room));
    }
}

} // verus!
