use youkebox::commands::{Command, CommandTable};
use youkebox::player::{
    init_playlist_listener, room_key, skip_video, Action, Event, NextVideo, Phase, RoomWorker,
    IDLE_BACKOFF_MILLIS, POLL_MILLIS,
};

fn found(id: i32, duration: &str) -> Event {
    Event::Selected(Some(NextVideo { id, duration: duration.to_string() }))
}

fn room(r: &str) -> Option<String> {
    Some(r.to_string())
}

#[test]
fn room_keys() {
    assert_eq!(room_key(&None), "");
    assert_eq!(room_key(&room("lobby")), "lobby");
}

#[test]
fn listener_seeds_every_room() {
    let mut t = CommandTable::new();
    let rooms = vec!["a".to_string(), "b".to_string()];
    let workers = init_playlist_listener(&mut t, &rooms);
    assert_eq!(workers.len(), 3);
    assert_eq!(workers[0].room(), &room("a"));
    assert_eq!(workers[1].room(), &room("b"));
    assert_eq!(workers[2].room(), &None);
    for w in &workers {
        assert_eq!(w.phase(), Phase::Selecting);
    }
    assert_eq!(t.get(&"a".to_string()), Some(Command::Play));
    assert_eq!(t.get(&"b".to_string()), Some(Command::Play));
    assert_eq!(t.get(&String::new()), Some(Command::Play));
}

#[test]
fn plays_for_full_duration() {
    let mut t = CommandTable::new();
    let mut w = RoomWorker::new(room("a"));
    assert_eq!(w.step(found(7, "PT3S"), &mut t), Action::StartPlaying(7));
    assert_eq!(w.phase(), Phase::Playing { video: 7, seconds: 3 });
    assert_eq!(w.step(Event::Tick(0), &mut t), Action::Wait(POLL_MILLIS));
    assert_eq!(w.step(Event::Tick(2), &mut t), Action::Wait(POLL_MILLIS));
    assert_eq!(w.step(Event::Tick(3), &mut t), Action::MarkPlayed(7));
    assert_eq!(w.step(Event::Marked, &mut t), Action::Select);
    assert_eq!(w.step(Event::Selected(None), &mut t), Action::Backoff(IDLE_BACKOFF_MILLIS));
    assert_eq!(w.phase(), Phase::Idle);
    assert_eq!(w.step(Event::Woke, &mut t), Action::Select);
}

#[test]
fn skip_ends_video_early() {
    let mut t = CommandTable::new();
    let mut w = RoomWorker::new(room("a"));
    w.step(found(1, "PT10M"), &mut t);
    assert_eq!(w.step(Event::Tick(1), &mut t), Action::Wait(POLL_MILLIS));
    skip_video(&mut t, &room("a"));
    assert_eq!(w.step(Event::Tick(2), &mut t), Action::MarkPlayed(1));
    assert_eq!(w.phase(), Phase::Completing { video: 1 });
}

#[test]
fn skip_is_reset_for_next_video() {
    let mut t = CommandTable::new();
    let mut w = RoomWorker::new(None);
    w.step(found(1, "PT10S"), &mut t);
    skip_video(&mut t, &None);
    assert_eq!(w.step(Event::Tick(0), &mut t), Action::MarkPlayed(1));
    assert_eq!(w.step(Event::Marked, &mut t), Action::Select);
    assert_eq!(w.step(found(2, "PT10S"), &mut t), Action::StartPlaying(2));
    assert_eq!(t.get(&String::new()), Some(Command::Play));
    assert_eq!(w.step(Event::Tick(0), &mut t), Action::Wait(POLL_MILLIS));
}

#[test]
fn skip_while_idle_does_not_reach_next_video() {
    let mut t = CommandTable::new();
    t.set(&"a".to_string(), Command::Play);
    let mut w = RoomWorker::new(room("a"));
    assert_eq!(w.step(Event::Selected(None), &mut t), Action::Backoff(IDLE_BACKOFF_MILLIS));
    skip_video(&mut t, &room("a"));
    assert_eq!(w.step(Event::Woke, &mut t), Action::Select);
    assert_eq!(w.step(found(4, "PT5S"), &mut t), Action::StartPlaying(4));
    assert_eq!(w.step(Event::Tick(1), &mut t), Action::Wait(POLL_MILLIS));
}

#[test]
fn skip_before_any_worker_is_lost() {
    let mut t = CommandTable::new();
    skip_video(&mut t, &room("new"));
    assert_eq!(t.get(&"new".to_string()), None);
    let mut w = RoomWorker::new(room("new"));
    w.step(found(1, "PT5S"), &mut t);
    assert_eq!(t.get(&"new".to_string()), Some(Command::Play));
    assert_eq!(w.step(Event::Tick(0), &mut t), Action::Wait(POLL_MILLIS));
}

#[test]
fn tick_without_entry_initializes_play() {
    let mut t = CommandTable::new();
    let mut w = RoomWorker::new(room("a"));
    w.step(found(1, "PT5S"), &mut t);
    let mut fresh = CommandTable::new();
    assert_eq!(w.step(Event::Tick(1), &mut fresh), Action::Wait(POLL_MILLIS));
    assert_eq!(fresh.get(&"a".to_string()), Some(Command::Play));
}

#[test]
fn rooms_progress_independently() {
    let mut t = CommandTable::new();
    let mut a = RoomWorker::new(room("a"));
    let mut b = RoomWorker::new(room("b"));
    a.step(found(1, "PT5S"), &mut t);
    b.step(found(2, "PT5S"), &mut t);
    skip_video(&mut t, &room("a"));
    assert_eq!(b.step(Event::Tick(1), &mut t), Action::Wait(POLL_MILLIS));
    assert_eq!(a.step(Event::Tick(1), &mut t), Action::MarkPlayed(1));
    assert_eq!(t.get(&"b".to_string()), Some(Command::Play));
}

#[test]
fn bad_duration_is_marked_played() {
    let mut t = CommandTable::new();
    let mut w = RoomWorker::new(None);
    assert_eq!(w.step(found(3, "PT99999999999S"), &mut t), Action::MarkPlayed(3));
    assert_eq!(w.phase(), Phase::Completing { video: 3 });
}

#[test]
fn storage_failure_backs_off() {
    let mut t = CommandTable::new();
    let mut w = RoomWorker::new(None);
    assert_eq!(w.step(Event::StorageFailed, &mut t), Action::Backoff(IDLE_BACKOFF_MILLIS));
    assert_eq!(w.phase(), Phase::Idle);
}

#[test]
fn unexpected_event_repeats_pending_action() {
    let mut t = CommandTable::new();
    let mut w = RoomWorker::new(None);
    assert_eq!(w.step(Event::Marked, &mut t), Action::Select);
    assert_eq!(w.step(Event::Tick(4), &mut t), Action::Select);
    assert_eq!(w.phase(), Phase::Selecting);
}
