use vstd::prelude::*;

verus! {

/// What a room's worker is told to do with the video it is playing.
#[derive(Debug, Clone, Copy, PartialEq, Eq, Structural)]
pub enum Command {
    Play,
    Skip,
}

/// The map that the entries of a table stand for; a later entry for a key
/// would replace an earlier one.
pub open spec fn entries_map(s: Seq<(String, Command)>) -> Map<Seq<char>, Command>
    decreases s.len(),
{
    if s.len() == 0 {
        Map::empty()
    } else {
        entries_map(s.drop_last()).insert(s.last().0@, s.last().1)
    }
}

pub open spec fn keys_unique(s: Seq<(String, Command)>) -> bool {
    forall|i: int, j: int| 0 <= i < s.len() && 0 <= j < s.len() && i != j ==> s[i].0@ != s[j].0@
}

proof fn lemma_absent(s: Seq<(String, Command)>, k: Seq<char>)
    requires
        forall|i: int| 0 <= i < s.len() ==> (#[trigger] s[i]).0@ != k,
    ensures
        !entries_map(s).contains_key(k),
    decreases s.len(),
{
    if s.len() > 0 {
        lemma_absent(s.drop_last(), k);
    }
}

proof fn lemma_present(s: Seq<(String, Command)>, i: int)
    requires
        keys_unique(s),
        0 <= i < s.len(),
    ensures
        entries_map(s).contains_key(s[i].0@),
        entries_map(s)[s[i].0@] == s[i].1,
    decreases s.len(),
{
    if i < s.len() - 1 {
        lemma_present(s.drop_last(), i);
    }
}

proof fn lemma_replace(s: Seq<(String, Command)>, i: int, c: Command)
    requires
        keys_unique(s),
        0 <= i < s.len(),
    ensures
        entries_map(s.update(i, (s[i].0, c))) == entries_map(s).insert(s[i].0@, c),
    decreases s.len(),
{
    let t = s.update(i, (s[i].0, c));
    if i == s.len() - 1 {
        assert(t.drop_last() =~= s.drop_last());
        lemma_absent(s.drop_last(), s[i].0@);
        assert(entries_map(s).insert(s[i].0@, c) =~= entries_map(s.drop_last()).insert(s[i].0@, c));
    } else {
        assert(t.drop_last() =~= s.drop_last().update(i, (s[i].0, c)));
        lemma_replace(s.drop_last(), i, c);
        assert(s.last().0@ != s[i].0@);
        assert(entries_map(t) =~= entries_map(s).insert(s[i].0@, c));
    }
}

/// The table after a skip for `room`: only an entry that is there changes.
pub open spec fn after_skip(t: Map<Seq<char>, Command>, room: Seq<char>) -> Map<Seq<char>, Command> {
    if t.contains_key(room) {
        t.insert(room, Command::Skip)
    } else {
        t
    }
}

/// The shared table from room key to the command for that room's worker.
/// The key of the queue without a room is the empty string.
pub struct CommandTable {
    entries: Vec<(String, Command)>,
}

impl CommandTable {
    pub closed spec fn view(&self) -> Map<Seq<char>, Command> {
        entries_map(self.entries@)
    }

    pub closed spec fn wf(&self) -> bool {
        keys_unique(self.entries@)
    }

    /// A table without entries.
    pub fn new() -> (r: Self)
        ensures
            r.wf(),
            r@ == Map::<Seq<char>, Command>::empty(),
    {
        CommandTable { entries: Vec::new() }
    }

    fn find(&self, room: &String) -> (r: Option<usize>)
        requires
            self.wf(),
        ensures
            match r {
                Some(i) => i < self.entries@.len() && self.entries@[i as int].0@ == room@
                    && self@.contains_key(room@),
                None => !self@.contains_key(room@),
            },
    {
        let mut i: usize = 0;
        while i < self.entries.len()
            invariant
                self.wf(),
                0 <= i <= self.entries@.len(),
                forall|j: int| 0 <= j < i ==> (#[trigger] self.entries@[j]).0@ != room@,
            decreases self.entries@.len() - i,
        {
            if self.entries[i].0 == *room {
                proof {
                    lemma_present(self.entries@, i as int);
                }
                return Some(i);
            }
            i = i + 1;
        }
        proof {
            lemma_absent(self.entries@, room@);
        }
        None
    }

    /// The command for `room`, or `None` where the room has no entry.
    pub fn get(&self, room: &String) -> (r: Option<Command>)
        requires
            self.wf(),
        ensures
            r == (if self@.contains_key(room@) {
                Some(self@[room@])
            } else {
                None::<Command>
            }),
    {
        match self.find(room) {
            Some(i) => {
                proof {
                    lemma_present(self.entries@, i as int);
                }
                Some(self.entries[i].1)
            },
            None => None,
        }
    }

    /// Sets the command for `room`, adding the entry if it is missing.
    pub fn set(&mut self, room: &String, command: Command)
        requires
            old(self).wf(),
        ensures
            final(self).wf(),
            final(self)@ == old(self)@.insert(room@, command),
    {
        match self.find(room) {
            Some(i) => {
                let key = self.entries[i].0.clone();
                proof {
                    lemma_replace(self.entries@, i as int, command);
                }
                self.entries.set(i, (key, command));
                proof {
                    assert(self.entries@ =~= old(self).entries@.update(i as int, (old(self).entries@[i as int].0, command)));
                }
            },
            None => {
                proof {
                    assert forall|j: int| 0 <= j < self.entries@.len() implies (#[trigger] self.entries@[j]).0@ != room@ by {
                        if self.entries@[j].0@ == room@ {
                            lemma_present(self.entries@, j);
                        }
                    }
                }
                self.entries.push((room.clone(), command));
                proof {
                    assert(self.entries@.drop_last() =~= old(self).entries@);
                }
            },
        }
    }

    /// Gives `room` the command `Play` where it has no entry yet; an entry
    /// that is there stays as it is.
    pub fn initialize(&mut self, room: &String)
        requires
            old(self).wf(),
        ensures
            final(self).wf(),
            final(self)@ == (if old(self)@.contains_key(room@) {
                old(self)@
            } else {
                old(self)@.insert(room@, Command::Play)
            }),
    {
        if self.find(room).is_none() {
            self.set(room, Command::Play);
        }
    }

    /// Asks the worker of `room` to skip its video: sets the entry to
    /// `Skip` where there is one, and does nothing where there is none.
    pub fn skip(&mut self, room: &String)
        requires
            old(self).wf(),
        ensures
            final(self).wf(),
            final(self)@ == after_skip(old(self)@, room@),
    {
        if self.find(room).is_some() {
            self.set(room, Command::Skip);
        }
    }
}

} // verus!
