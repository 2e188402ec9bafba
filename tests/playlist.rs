use youkebox::models::Video;
use youkebox::playlist::{same_room, Playlist};

fn video(id: i32, room: Option<&str>, added_on: u64) -> Video {
    Video {
        id,
        video_id: format!("v{}", id),
        title: format!("title {}", id),
        description: None,
        duration: "PT1M".to_string(),
        played: false,
        added_on,
        played_on: None,
        room: room.map(|r| r.to_string()),
    }
}

fn room(r: &str) -> Option<String> {
    Some(r.to_string())
}

#[test]
fn empty_playlist_has_nothing_next() {
    let p = Playlist::new();
    assert_eq!(p.next_unplayed(&None), None);
}

#[test]
fn plays_in_order_of_addition_then_idles() {
    let mut p = Playlist::new();
    p.add(video(1, Some("a"), 30));
    p.add(video(2, Some("a"), 10));
    p.add(video(3, Some("a"), 20));
    let mut order = Vec::new();
    while let Some(i) = p.next_unplayed(&room("a")) {
        let id = p.videos[i].id;
        order.push(id);
        p.mark_played(id);
    }
    assert_eq!(order, vec![2, 3, 1]);
    assert_eq!(p.next_unplayed(&room("a")), None);
}

#[test]
fn equal_times_go_by_store_order() {
    let mut p = Playlist::new();
    p.add(video(5, None, 7));
    p.add(video(6, None, 7));
    assert_eq!(p.next_unplayed(&None), Some(0));
}

#[test]
fn rooms_are_kept_apart() {
    let mut p = Playlist::new();
    p.add(video(1, Some("a"), 1));
    p.add(video(2, None, 2));
    p.add(video(3, Some("b"), 3));
    assert_eq!(p.next_unplayed(&room("b")), Some(2));
    assert_eq!(p.next_unplayed(&None), Some(1));
    assert_eq!(p.next_unplayed(&room("a")), Some(0));
    assert_eq!(p.next_unplayed(&room("c")), None);
}

#[test]
fn marking_twice_is_harmless() {
    let mut p = Playlist::new();
    p.add(video(1, None, 1));
    p.add(video(2, None, 2));
    p.mark_played(1);
    p.mark_played(1);
    assert!(p.videos[0].played);
    assert!(!p.videos[1].played);
    assert_eq!(p.next_unplayed(&None), Some(1));
}

#[test]
fn mark_started_records_time() {
    let mut p = Playlist::new();
    p.add(video(1, None, 1));
    p.add(video(2, None, 2));
    p.mark_started(2, 99);
    assert_eq!(p.videos[0].played_on, None);
    assert_eq!(p.videos[1].played_on, Some(99));
    assert!(!p.videos[1].played);
}

#[test]
fn same_room_compares_names() {
    assert!(same_room(&None, &None));
    assert!(same_room(&room("x"), &room("x")));
    assert!(!same_room(&room("x"), &room("y")));
    assert!(!same_room(&room(""), &None));
}
