//! The video page: remembers which file was last asked to open.

use vstd::prelude::*;

verus! {

/// Requests addressed to the video page.
#[derive(Debug, Clone)]
pub enum Message {
    ToBrowser,
    ToImage,
    ToVideo,
    ToAudio,
    Open(String),
}

/// The video page's state: the path of the video to show.
pub struct Video {
    video_path: String,
}

impl Video {
    /// The path held by the page.
    pub closed spec fn path(&self) -> Seq<char> {
        self.video_path@
    }

    /// A page with no video chosen.
    pub fn new() -> (r: Video)
        ensures
            r.path() == Seq::<char>::empty(),
    {
        Video { video_path: String::new() }
    }

    /// `Open(path)` makes `path` the page's video; navigation requests
    /// leave the page as it is.
    pub fn update(&mut self, message: Message)
        ensures
            match message {
                Message::Open(p) => final(self).path() == p@,
                _ => final(self).path() == old(self).path(),
            },
    {
        match message {
            Message::ToBrowser => {},
            Message::ToImage => {},
            Message::ToVideo => {},
            Message::ToAudio => {},
            Message::Open(path) => {
                self.video_path = path;
            },
        }
    }

    /// The path of the video to show.
    pub fn video_path(&self) -> (r: &str)
        ensures
            r@ == self.path(),
    {
        self.video_path.as_str()
    }
}

} // verus!
