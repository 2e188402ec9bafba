use vstd::prelude::*;

verus! {

/// A post of the site's news feed.
pub struct Post {
    pub id: i32,
    pub title: String,
    pub body: String,
    pub published: bool,
}

/// The fields of a post that is about to be stored.
pub struct NewPost<'a> {
    pub title: &'a str,
    pub body: &'a str,
}

/// A post as a client submits it.
pub struct AddPost {
    pub title: String,
    pub body: String,
}

/// An entry of a room's queue. Times are whole seconds since the Unix
/// epoch; `room` is `None` for the queue without a room.
pub struct Video {
    pub id: i32,
    pub video_id: String,
    pub title: String,
    pub description: Option<String>,
    pub duration: String,
    pub played: bool,
    pub added_on: u64,
    pub played_on: Option<u64>,
    pub room: Option<String>,
}

/// The identifier part of a video catalog search result.
#[allow(non_snake_case)]
pub struct YoutubeVideoId {
    pub kind: String,
    pub videoId: String,
}

pub struct YoutubeVideoThumbnail {
    pub url: String,
    pub width: i16,
    pub height: i16,
}

pub struct YoutubeVideoThumbnails {
    pub default: YoutubeVideoThumbnail,
    pub medium: YoutubeVideoThumbnail,
    pub high: YoutubeVideoThumbnail,
}

#[allow(non_snake_case)]
pub struct YoutubeVideoSnippet {
    pub publishedAt: String,
    pub channelId: String,
    pub title: String,
    pub description: String,
    pub thumbnails: YoutubeVideoThumbnails,
    pub channelTitle: String,
    pub liveBroadcastContent: String,
}

/// One result of a video catalog search.
pub struct YoutubeVideo {
    pub kind: String,
    pub etag: String,
    pub id: YoutubeVideoId,
    pub snippet: YoutubeVideoSnippet,
}

} // verus!
