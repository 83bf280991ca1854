//! The per-stream resource table: for each stream id, the staged contents
//! of its luma and chroma textures and of its placement uniform, created on
//! first upload and released once the stream's liveness flag reads false.

use std::sync::atomic::{AtomicBool, Ordering};
use std::sync::Arc;
use vstd::prelude::*;

verus! {

/// Device-space rectangle at which a frame is drawn.
#[derive(Clone, Copy, Debug, PartialEq, Eq, Structural)]
pub struct PlacementRect {
    pub min_x: i32,
    pub min_y: i32,
    pub max_x: i32,
    pub max_y: i32,
}

impl PlacementRect {
    pub open spec fn zero() -> PlacementRect {
        PlacementRect { min_x: 0, min_y: 0, max_x: 0, max_y: 0 }
    }
}

/// What the table holds for one stream.
pub struct EntryView {
    pub width: u32,
    pub height: u32,
    pub luma: Seq<u8>,
    pub chroma: Seq<u8>,
    pub rect: PlacementRect,
}

/// Number of bytes in the luma plane of a `width` x `height` frame.
pub open spec fn luma_len(width: u32, height: u32) -> int {
    width as int * height as int
}

/// Number of bytes in the interleaved chroma plane: `(width/2)*(height/2)` pairs.
pub open spec fn chroma_len(width: u32, height: u32) -> int {
    width as int * height as int / 2
}

/// Frame dimensions that the table accepts: even and at least 2.
pub open spec fn valid_dims(width: u32, height: u32) -> bool {
    width >= 2 && height >= 2 && width % 2 == 0 && height % 2 == 0
}

/// The entry made for a stream on its first upload: textures sized from the
/// frame dimensions, zero-filled, and a zero placement.
pub open spec fn fresh_entry(width: u32, height: u32) -> EntryView {
    EntryView {
        width,
        height,
        luma: Seq::new(luma_len(width, height) as nat, |i: int| 0u8),
        chroma: Seq::new(chroma_len(width, height) as nat, |i: int| 0u8),
        rect: PlacementRect::zero(),
    }
}

/// An entry after a frame of `width` x `height` is uploaded into it: the
/// luma texture takes the first `width*height` bytes, the chroma texture
/// the next `width*height/2`. Texture extents are fixed at creation, so a
/// frame of other dimensions leaves the entry as it was.
pub open spec fn uploaded(e: EntryView, width: u32, height: u32, frame: Seq<u8>) -> EntryView {
    if e.width == width && e.height == height {
        EntryView {
            luma: frame.subrange(0, luma_len(width, height)),
            chroma: frame.subrange(luma_len(width, height), luma_len(width, height) + chroma_len(width, height)),
            ..e
        }
    } else {
        e
    }
}

/// The table after `ensure_and_upload`: the entry for `id` is created if
/// missing, then the frame is uploaded into it.
pub open spec fn upload_spec(m: Map<u64, EntryView>, id: u64, width: u32, height: u32, frame: Seq<u8>) -> Map<u64, EntryView> {
    let e = if m.contains_key(id) { m[id] } else { fresh_entry(width, height) };
    m.insert(id, uploaded(e, width, height, frame))
}

/// The table after a placement update: the rectangle of `id`'s entry is
/// overwritten, and nothing happens if there is no such entry.
pub open spec fn placed(m: Map<u64, EntryView>, id: u64, rect: PlacementRect) -> Map<u64, EntryView> {
    if m.contains_key(id) {
        m.insert(id, EntryView { rect, ..m[id] })
    } else {
        m
    }
}

/// The table after the streams in `dead` are reclaimed.
pub open spec fn reclaimed(m: Map<u64, EntryView>, dead: Set<u64>) -> Map<u64, EntryView> {
    m.remove_keys(dead)
}

struct VideoEntry {
    id: u64,
    width: u32,
    height: u32,
    texture_y: Vec<u8>,
    texture_uv: Vec<u8>,
    uniforms: PlacementRect,
    alive: Arc<AtomicBool>,
}

impl VideoEntry {
    closed spec fn view(&self) -> EntryView {
        EntryView {
            width: self.width,
            height: self.height,
            luma: self.texture_y@,
            chroma: self.texture_uv@,
            rect: self.uniforms,
        }
    }
}

/// The resource table of all streams, ordered by stream id. The entries
/// sit in a vector kept strictly increasing by id, which gives the keyed,
/// stably ordered walk that reclamation needs with index-based proofs;
/// `view` presents it as a map.
pub struct VideoPipeline {
    format: u32,
    videos: Vec<VideoEntry>,
}

impl View for VideoPipeline {
    type V = Map<u64, EntryView>;

    closed spec fn view(&self) -> Map<u64, EntryView> {
        Map::new(
            |id: u64| exists|i: int| 0 <= i < self.videos@.len() && self.videos@[i].id == id,
            |id: u64| self.videos@[self.slot(id)].view(),
        )
    }
}

impl VideoPipeline {
    /// Index of the entry for `id`.
    closed spec fn slot(&self, id: u64) -> int {
        choose|i: int| 0 <= i < self.videos@.len() && self.videos@[i].id == id
    }

    /// Indices of the entries that hold stream `id`.
    pub closed spec fn slots_of(&self, id: u64) -> Set<int> {
        Set::new(|i: int| 0 <= i < self.videos@.len() && self.videos@[i].id == id)
    }

    /// Entries are strictly ordered by stream id, and each one's textures
    /// are sized from its dimensions.
    pub closed spec fn wf(&self) -> bool {
        &&& forall|i: int, j: int|
            0 <= i < j < self.videos@.len() ==> self.videos@[i].id < self.videos@[j].id
        &&& forall|i: int| 0 <= i < self.videos@.len() ==> #[trigger] self.videos@[i].view().well_sized()
    }

    proof fn lemma_slot(&self, i: int)
        requires
            self.wf(),
            0 <= i < self.videos@.len(),
        ensures
            self.slot(self.videos@[i].id) == i,
            self@.contains_key(self.videos@[i].id),
            self@[self.videos@[i].id] == self.videos@[i].view(),
    {
        let id = self.videos@[i].id;
        assert(0 <= i < self.videos@.len() && self.videos@[i].id == id);
        let j = self.slot(id);
        if j < i {
            assert(self.videos@[j].id < self.videos@[i].id);
        } else if j > i {
            assert(self.videos@[i].id < self.videos@[j].id);
        }
    }

    proof fn lemma_contains(&self, id: u64)
        requires
            self@.contains_key(id),
        ensures
            0 <= self.slot(id) < self.videos@.len(),
            self.videos@[self.slot(id)].id == id,
    {
    }

    /// Replacing the entry at `i` by one of the same id replaces that id's view.
    proof fn lemma_replace(a: VideoPipeline, b: VideoPipeline, i: int, e: VideoEntry)
        requires
            a.wf(),
            0 <= i < a.videos@.len(),
            e.id == a.videos@[i].id,
            e.view().well_sized(),
            b.videos@ == a.videos@.update(i, e),
        ensures
            b.wf(),
            b@ == a@.insert(e.id, e.view()),
    {
        assert forall|j: int| 0 <= j < b.videos@.len() implies #[trigger] b.videos@[j].view().well_sized() by {
            if j != i {
                assert(a.videos@[j].view().well_sized());
            }
        }
        let target = a@.insert(e.id, e.view());
        assert forall|k: u64| b@.contains_key(k) <==> target.contains_key(k) by {
            if b@.contains_key(k) {
                b.lemma_contains(k);
                let j = b.slot(k);
                if j != i {
                    assert(a.videos@[j].id == k);
                }
            }
            if a@.contains_key(k) {
                a.lemma_contains(k);
                let j = a.slot(k);
                assert(b.videos@[j].id == k);
            }
            if k == e.id {
                assert(b.videos@[i].id == k);
            }
        }
        assert forall|k: u64| b@.contains_key(k) implies b@[k] == target[k] by {
            b.lemma_contains(k);
            let j = b.slot(k);
            b.lemma_slot(j);
            if j != i {
                a.lemma_slot(j);
            }
        }
        assert(b@ =~= target);
    }

    /// Inserting an entry at its place in the id order adds it to the view.
    proof fn lemma_insert(a: VideoPipeline, b: VideoPipeline, pos: int, e: VideoEntry)
        requires
            a.wf(),
            0 <= pos <= a.videos@.len(),
            forall|j: int| 0 <= j < pos ==> a.videos@[j].id < e.id,
            forall|j: int| pos <= j < a.videos@.len() ==> a.videos@[j].id > e.id,
            e.view().well_sized(),
            b.videos@ == a.videos@.insert(pos, e),
        ensures
            b.wf(),
            b@ == a@.insert(e.id, e.view()),
    {
        a.videos@.insert_ensures(pos, e);
        assert forall|j: int| 0 <= j < b.videos@.len() implies #[trigger] b.videos@[j].view().well_sized() by {
            if j < pos {
                assert(a.videos@[j].view().well_sized());
            } else if j > pos {
                assert(b.videos@[j] == a.videos@[j - 1]);
                assert(a.videos@[j - 1].view().well_sized());
            }
        }
        assert forall|x: int, y: int| 0 <= x < y < b.videos@.len() implies b.videos@[x].id < b.videos@[y].id by {
            if y < pos {
            } else if y == pos {
            } else if x < pos {
                assert(b.videos@[y] == a.videos@[y - 1]);
            } else if x == pos {
                assert(b.videos@[y] == a.videos@[y - 1]);
            } else {
                assert(b.videos@[y] == a.videos@[y - 1]);
                assert(b.videos@[x] == a.videos@[x - 1]);
            }
        }
        let target = a@.insert(e.id, e.view());
        assert forall|k: u64| b@.contains_key(k) <==> target.contains_key(k) by {
            if b@.contains_key(k) {
                b.lemma_contains(k);
                let j = b.slot(k);
                if j < pos {
                    assert(a.videos@[j].id == k);
                } else if j > pos {
                    assert(b.videos@[j] == a.videos@[j - 1]);
                    assert(a.videos@[j - 1].id == k);
                }
            }
            if a@.contains_key(k) {
                a.lemma_contains(k);
                let j = a.slot(k);
                if j < pos {
                    assert(b.videos@[j].id == k);
                } else {
                    assert(b.videos@[j + 1] == a.videos@[j]);
                    assert(b.videos@[j + 1].id == k);
                }
            }
            if k == e.id {
                assert(b.videos@[pos].id == k);
            }
        }
        assert forall|k: u64| b@.contains_key(k) implies b@[k] == target[k] by {
            b.lemma_contains(k);
            let j = b.slot(k);
            b.lemma_slot(j);
            if j < pos {
                a.lemma_slot(j);
            } else if j > pos {
                assert(b.videos@[j] == a.videos@[j - 1]);
                a.lemma_slot(j - 1);
            }
        }
        assert(b@ =~= target);
    }

    /// Removing the entry at `i` removes its id from the view.
    proof fn lemma_remove(a: VideoPipeline, b: VideoPipeline, i: int)
        requires
            a.wf(),
            0 <= i < a.videos@.len(),
            b.videos@ == a.videos@.remove(i),
        ensures
            b.wf(),
            b@ == a@.remove(a.videos@[i].id),
    {
        a.videos@.remove_ensures(i);
        let id = a.videos@[i].id;
        assert forall|j: int| 0 <= j < b.videos@.len() implies #[trigger] b.videos@[j].view().well_sized() by {
            if j < i {
                assert(a.videos@[j].view().well_sized());
            } else {
                assert(b.videos@[j] == a.videos@[j + 1]);
                assert(a.videos@[j + 1].view().well_sized());
            }
        }
        assert forall|x: int, y: int| 0 <= x < y < b.videos@.len() implies b.videos@[x].id < b.videos@[y].id by {
            if y < i {
            } else if x < i {
                assert(b.videos@[y] == a.videos@[y + 1]);
            } else {
                assert(b.videos@[y] == a.videos@[y + 1]);
                assert(b.videos@[x] == a.videos@[x + 1]);
            }
        }
        let target = a@.remove(id);
        assert forall|k: u64| b@.contains_key(k) <==> target.contains_key(k) by {
            if b@.contains_key(k) {
                b.lemma_contains(k);
                let j = b.slot(k);
                if j < i {
                    assert(a.videos@[j].id == k);
                    assert(a.videos@[j].id < a.videos@[i].id);
                } else {
                    assert(b.videos@[j] == a.videos@[j + 1]);
                    assert(a.videos@[j + 1].id == k);
                    assert(a.videos@[i].id < a.videos@[j + 1].id);
                }
            }
            if target.contains_key(k) {
                a.lemma_contains(k);
                let j = a.slot(k);
                if j < i {
                    assert(b.videos@[j].id == k);
                } else {
                    assert(j != i);
                    assert(b.videos@[j - 1] == a.videos@[j]);
                    assert(b.videos@[j - 1].id == k);
                }
            }
        }
        assert forall|k: u64| b@.contains_key(k) implies b@[k] == target[k] by {
            b.lemma_contains(k);
            let j = b.slot(k);
            b.lemma_slot(j);
            if j < i {
                a.lemma_slot(j);
            } else {
                assert(b.videos@[j] == a.videos@[j + 1]);
                a.lemma_slot(j + 1);
            }
        }
        assert(b@ =~= target);
    }
}

/// A fixed four-vertex quad draw, the corners derived in the vertex shader
/// from the placement uniform.
pub const QUAD_VERTICES: u32 = 4;

/// Viewport (clip rectangle) of a draw, in target pixels.
#[derive(Clone, Copy, Debug, PartialEq, Eq, Structural)]
pub struct Viewport {
    pub x: u32,
    pub y: u32,
    pub width: u32,
    pub height: u32,
}

/// One draw of a stream: bind the shared pipeline and the stream's binding
/// set, set the viewport, draw `vertices` vertices of one instance.
#[derive(Clone, Copy, Debug, PartialEq, Eq, Structural)]
pub struct DrawCommand {
    pub video_id: u64,
    pub viewport: Viewport,
    pub vertices: u32,
    pub instances: u32,
}

/// Copies `frame[start..end]` into a new buffer.
fn copy_range(frame: &[u8], start: usize, end: usize) -> (r: Vec<u8>)
    requires
        start <= end <= frame@.len(),
    ensures
        r@ == frame@.subrange(start as int, end as int),
{
    let mut r: Vec<u8> = Vec::with_capacity(end - start);
    let mut i: usize = start;
    while i < end
        invariant
            start <= i <= end,
            end <= frame@.len(),
            r@ == frame@.subrange(start as int, i as int),
        decreases end - i,
    {
        r.push(frame[i]);
        i += 1;
        assert(r@ =~= frame@.subrange(start as int, i as int));
    }
    r
}

/// Whether `id` is among `ids`.
fn contains_id(ids: &Vec<u64>, id: u64) -> (r: bool)
    ensures
        r == ids@.contains(id),
{
    let mut i: usize = 0;
    while i < ids.len()
        invariant
            i <= ids@.len(),
            forall|j: int| 0 <= j < i ==> ids@[j] != id,
        decreases ids@.len() - i,
    {
        if ids[i] == id {
            return true;
        }
        i += 1;
    }
    false
}

impl VideoPipeline {
    /// The surface format that the shared pipeline was built for.
    pub closed spec fn surface_format(&self) -> u32 {
        self.format
    }

    /// The shared pipeline for surface format `format`, with an empty table.
    pub fn new(format: u32) -> (r: VideoPipeline)
        ensures
            r.wf(),
            r@ == Map::<u64, EntryView>::empty(),
            r.surface_format() == format,
    {
        let r = VideoPipeline { format, videos: Vec::new() };
        assert(r@ =~= Map::<u64, EntryView>::empty());
        r
    }

    /// The surface format that the shared pipeline was built for.
    pub fn format(&self) -> (f: u32)
        ensures
            f == self.surface_format(),
    {
        self.format
    }

    /// Index of the entry for `video_id`, if there is one.
    fn find(&self, video_id: u64) -> (r: Option<usize>)
        requires
            self.wf(),
        ensures
            match r {
                Some(i) => i < self.videos@.len() && self.videos@[i as int].id == video_id
                    && self@.contains_key(video_id),
                None => !self@.contains_key(video_id),
            },
    {
        let mut i: usize = 0;
        while i < self.videos.len()
            invariant
                self.wf(),
                i <= self.videos@.len(),
                forall|j: int| 0 <= j < i ==> self.videos@[j].id != video_id,
            decreases self.videos@.len() - i,
        {
            if self.videos[i].id == video_id {
                proof {
                    self.lemma_slot(i as int);
                }
                return Some(i);
            }
            i += 1;
        }
        proof {
            if self@.contains_key(video_id) {
                self.lemma_contains(video_id);
            }
        }
        None
    }

    /// Index at which an entry for the absent `video_id` keeps the id order.
    fn insertion_point(&self, video_id: u64) -> (r: usize)
        requires
            self.wf(),
            !self@.contains_key(video_id),
        ensures
            r <= self.videos@.len(),
            forall|j: int| 0 <= j < r ==> self.videos@[j].id < video_id,
            forall|j: int| r <= j < self.videos@.len() ==> self.videos@[j].id > video_id,
    {
        let mut i: usize = 0;
        while i < self.videos.len() && self.videos[i].id < video_id
            invariant
                self.wf(),
                !self@.contains_key(video_id),
                i <= self.videos@.len(),
                forall|j: int| 0 <= j < i ==> self.videos@[j].id < video_id,
            decreases self.videos@.len() - i,
        {
            i += 1;
        }
        proof {
            assert forall|j: int| i <= j < self.videos@.len() implies self.videos@[j].id > video_id by {
                self.lemma_slot(j);
                self.lemma_slot(i as int);
            }
        }
        i
    }

    /// Creates the entry for `video_id` if it has none, with textures sized
    /// from `size`, then copies the frame into its textures: the first
    /// `width*height` bytes into the luma texture, the next `width*height/2`
    /// into the chroma texture.
    pub fn upload(&mut self, video_id: u64, alive: &Arc<AtomicBool>, size: (u32, u32), frame: &[u8])
        requires
            old(self).wf(),
            valid_dims(size.0, size.1),
            frame@.len() >= luma_len(size.0, size.1) + chroma_len(size.0, size.1),
        ensures
            final(self).wf(),
            final(self)@ == upload_spec(old(self)@, video_id, size.0, size.1, frame@),
            final(self).surface_format() == old(self).surface_format(),
    {
        let (width, height) = size;
        let ghost n = luma_len(width, height);
        let ghost before = self@;
        let frame_len = frame.len();
        proof {
            assert(0 <= n);
            assert(n + n / 2 <= frame_len);
        }
        let luma_size: usize = width as usize * height as usize;
        let chroma_size: usize = luma_size / 2;
        let idx = match self.find(video_id) {
            Some(i) => i,
            None => {
                let pos = self.insertion_point(video_id);
                let entry = VideoEntry {
                    id: video_id,
                    width,
                    height,
                    texture_y: vec![0u8; luma_size],
                    texture_uv: vec![0u8; chroma_size],
                    uniforms: PlacementRect { min_x: 0, min_y: 0, max_x: 0, max_y: 0 },
                    alive: alive.clone(),
                };
                proof {
                    assert(entry.texture_y@ =~= fresh_entry(width, height).luma);
                    assert(entry.texture_uv@ =~= fresh_entry(width, height).chroma);
                    assert(entry.view() == fresh_entry(width, height));
                }
                let ghost a = *self;
                self.videos.insert(pos, entry);
                proof {
                    VideoPipeline::lemma_insert(a, *self, pos as int, entry);
                }
                pos
            },
        };
        let ghost mid = self@;
        proof {
            self.lemma_slot(idx as int);
            assert(mid == before.insert(video_id, if before.contains_key(video_id) { before[video_id] } else { fresh_entry(width, height) }));
        }
        if self.videos[idx].width == width && self.videos[idx].height == height {
            let luma = copy_range(frame, 0, luma_size);
            let chroma = copy_range(frame, luma_size, luma_size + chroma_size);
            let ghost a = *self;
            let mut e = self.videos.remove(idx);
            e.texture_y = luma;
            e.texture_uv = chroma;
            proof {
                assert(a.videos@[idx as int].view().well_sized());
                assert(e.view() == uploaded(mid[video_id], width, height, frame@));
                a.videos@.remove_ensures(idx as int);
                assert(a.videos@.remove(idx as int).insert(idx as int, e) =~= a.videos@.update(idx as int, e));
            }
            self.videos.insert(idx, e);
            proof {
                VideoPipeline::lemma_replace(a, *self, idx as int, e);
                assert(self@ =~= upload_spec(before, video_id, width, height, frame@));
            }
        } else {
            proof {
                assert(mid =~= upload_spec(before, video_id, width, height, frame@));
            }
        }
    }

    /// Writes `rect` into the placement uniform of `video_id`'s entry; does
    /// nothing when the stream has no entry.
    pub fn update_placement(&mut self, video_id: u64, rect: PlacementRect)
        requires
            old(self).wf(),
        ensures
            final(self).wf(),
            final(self)@ == placed(old(self)@, video_id, rect),
            final(self).surface_format() == old(self).surface_format(),
    {
        match self.find(video_id) {
            None => {},
            Some(idx) => {
                let ghost a = *self;
                proof {
                    self.lemma_slot(idx as int);
                    assert(a.videos@[idx as int].view().well_sized());
                }
                let mut e = self.videos.remove(idx);
                e.uniforms = rect;
                proof {
                    a.videos@.remove_ensures(idx as int);
                    assert(a.videos@.remove(idx as int).insert(idx as int, e) =~= a.videos@.update(idx as int, e));
                }
                self.videos.insert(idx, e);
                proof {
                    VideoPipeline::lemma_replace(a, *self, idx as int, e);
                    assert(self@ =~= placed(a@, video_id, rect));
                }
            },
        }
    }

    /// Removes the entries of the streams in `dead`; returns the ids that
    /// had an entry, in increasing order.
    pub fn remove_dead(&mut self, dead: &Vec<u64>) -> (removed: Vec<u64>)
        requires
            old(self).wf(),
        ensures
            final(self).wf(),
            final(self)@ == reclaimed(old(self)@, dead@.to_set()),
            final(self).surface_format() == old(self).surface_format(),
            removed@.to_set() == old(self)@.dom().intersect(dead@.to_set()),
            forall|i: int, j: int| 0 <= i < j < removed@.len() ==> removed@[i] < removed@[j],
    {
        let ghost start = self@;
        let ghost fmt = self.format;
        let ghost d = dead@.to_set();
        let mut removed: Vec<u64> = Vec::new();
        let mut i: usize = 0;
        while i < self.videos.len()
            invariant
                self.wf(),
                self.format == fmt,
                i <= self.videos@.len(),
                forall|j: int| 0 <= j < i ==> !d.contains(#[trigger] self.videos@[j].id),
                forall|k: u64| #[trigger] self@.contains_key(k) ==> start.contains_key(k) && self@[k] == start[k],
                forall|k: u64| #[trigger] start.contains_key(k) && !d.contains(k) ==> self@.contains_key(k),
                forall|k: u64| #[trigger] removed@.contains(k) <==> start.contains_key(k) && d.contains(k) && !self@.contains_key(k),
                forall|k: u64| start.contains_key(k) && !self@.contains_key(k) ==> d.contains(k),
                forall|x: int, y: int| 0 <= x < y < removed@.len() ==> removed@[x] < removed@[y],
                forall|k: u64, j: int| removed@.contains(k) && i <= j < self.videos@.len() ==> k < self.videos@[j].id,
                d == dead@.to_set(),
            decreases self.videos@.len() - i,
        {
            let id = self.videos[i].id;
            if contains_id(dead, id) {
                let ghost a = *self;
                proof {
                    assert(forall|k: u64| a@.contains_key(k) ==> start.contains_key(k) && a@[k] == start[k]);
                    assert(forall|k: u64| start.contains_key(k) && !d.contains(k) ==> a@.contains_key(k));
                    assert(forall|k: u64| start.contains_key(k) && !a@.contains_key(k) ==> d.contains(k));
                }
                self.videos.remove(i);
                proof {
                    VideoPipeline::lemma_remove(a, *self, i as int);
                    a.lemma_slot(i as int);
                    a.videos@.remove_ensures(i as int);
                    assert(d.contains(id));
                    assert forall|k: u64| self@.contains_key(k) implies start.contains_key(k) && self@[k] == start[k] by {
                        assert(a@.contains_key(k));
                    }
                    assert forall|k: u64, j: int| removed@.contains(k) && i <= j < self.videos@.len() implies k < self.videos@[j].id by {
                        assert(self.videos@[j] == a.videos@[j + 1]);
                        assert(k < a.videos@[j + 1].id);
                    }
                    assert forall|j: int| 0 <= j < i implies !d.contains(#[trigger] self.videos@[j].id) by {
                        assert(self.videos@[j] == a.videos@[j]);
                    }
                    assert(!removed@.contains(id));
                }
                let ghost prev = removed@;
                removed.push(id);
                proof {
                    assert(removed@ == prev.push(id));
                    assert forall|x: int, y: int| 0 <= x < y < removed@.len() implies removed@[x] < removed@[y] by {
                        if y == prev.len() {
                            assert(prev.contains(prev[x]));
                            assert(prev[x] < a.videos@[i as int].id);
                        } else {
                            assert(removed@[x] == prev[x] && removed@[y] == prev[y]);
                        }
                    }
                    assert forall|k: u64| #[trigger] removed@.contains(k) <==> prev.contains(k) || k == id by {
                        if removed@.contains(k) {
                            let w = choose|w: int| 0 <= w < removed@.len() && removed@[w] == k;
                            if w < prev.len() {
                                assert(prev[w] == k);
                            }
                        }
                        if prev.contains(k) {
                            let w = choose|w: int| 0 <= w < prev.len() && prev[w] == k;
                            assert(removed@[w] == k);
                        }
                        if k == id {
                            assert(removed@[prev.len() as int] == k);
                        }
                    }
                    assert forall|k: u64, j: int| removed@.contains(k) && i <= j < self.videos@.len() implies k < self.videos@[j].id by {
                        assert(self.videos@[j] == a.videos@[j + 1]);
                        if k == id {
                            assert(a.videos@[i as int].id < a.videos@[j + 1].id);
                        } else {
                            assert(prev.contains(k));
                        }
                    }
                    assert forall|k: u64| #[trigger] removed@.contains(k) <==> start.contains_key(k) && d.contains(k) && !self@.contains_key(k) by {
                        if k != id {
                            assert(self@.contains_key(k) == a@.contains_key(k));
                            assert(removed@.contains(k) == prev.contains(k));
                        } else {
                            assert(a@.contains_key(k));
                            assert(start.contains_key(k));
                        }
                    }
                }
            } else {
                proof {
                    self.lemma_slot(i as int);
                }
                i += 1;
            }
        }
        proof {
            assert forall|k: u64| self@.contains_key(k) implies !d.contains(k) by {
                self.lemma_contains(k);
                assert(!d.contains(self.videos@[self.slot(k)].id));
            }
            let target = reclaimed(start, d);
            assert forall|k: u64| self@.contains_key(k) <==> target.contains_key(k) by {
                if start.contains_key(k) && !d.contains(k) {
                    assert(self@.contains_key(k));
                }
            }
            assert forall|k: u64| self@.contains_key(k) implies self@[k] == target[k] by {
                assert(!d.contains(k));
            }
            assert(self@ =~= target);
            assert(removed@.to_set() =~= start.dom().intersect(d));
        }
        removed
    }

    /// Each stream's id with a reading of its liveness flag taken now, in
    /// increasing id order.
    fn liveness_readings(&self) -> (r: (Vec<u64>, Vec<bool>))
        requires
            self.wf(),
        ensures
            r.0@.len() == r.1@.len(),
            forall|k: u64| r.0@.contains(k) ==> self@.contains_key(k),
    {
        let mut ids: Vec<u64> = Vec::new();
        let mut readings: Vec<bool> = Vec::new();
        let mut i: usize = 0;
        while i < self.videos.len()
            invariant
                self.wf(),
                i <= self.videos@.len(),
                ids@.len() == i,
                readings@.len() == i,
                forall|j: int| 0 <= j < i ==> ids@[j] == self.videos@[j].id,
            decreases self.videos@.len() - i,
        {
            ids.push(self.videos[i].id);
            readings.push(self.videos[i].alive.load(Ordering::SeqCst));
            i += 1;
        }
        proof {
            assert forall|k: u64| ids@.contains(k) implies self@.contains_key(k) by {
                let j = choose|j: int| 0 <= j < ids@.len() && ids@[j] == k;
                self.lemma_slot(j);
            }
        }
        (ids, readings)
    }

    /// Releases the entries of every stream whose liveness flag reads false,
    /// and only those; returns their ids, in increasing order, so that
    /// their GPU memory can be freed. Which flags read false is up to the
    /// streams' owners; `dead_of` and `remove_dead` say what is done with
    /// the readings.
    pub fn cleanup(&mut self) -> (removed: Vec<u64>)
        requires
            old(self).wf(),
        ensures
            final(self).wf(),
            final(self).surface_format() == old(self).surface_format(),
            exists|dead: Set<u64>| final(self)@ == reclaimed(old(self)@, dead),
            removed@.to_set() == old(self)@.dom().difference(final(self)@.dom()),
            forall|i: int, j: int| 0 <= i < j < removed@.len() ==> removed@[i] < removed@[j],
    {
        let ghost start = self@;
        let (ids, readings) = self.liveness_readings();
        let dead = dead_of(&ids, &readings);
        let removed = self.remove_dead(&dead);
        proof {
            assert(removed@.to_set() =~= start.dom().difference(self@.dom()));
        }
        removed
    }

    /// Writes the placement of `video_id`, then reclaims the entries of
    /// streams whose liveness flag reads false; returns the reclaimed ids.
    pub fn prepare(&mut self, video_id: u64, bounds: PlacementRect) -> (removed: Vec<u64>)
        requires
            old(self).wf(),
        ensures
            final(self).wf(),
            final(self).surface_format() == old(self).surface_format(),
            exists|dead: Set<u64>| final(self)@ == reclaimed(placed(old(self)@, video_id, bounds), dead),
            removed@.to_set() == placed(old(self)@, video_id, bounds).dom().difference(final(self)@.dom()),
            forall|i: int, j: int| 0 <= i < j < removed@.len() ==> removed@[i] < removed@[j],
    {
        self.update_placement(video_id, bounds);
        self.cleanup()
    }

    /// Ids of the streams that have an entry, in increasing order.
    pub fn stream_ids(&self) -> (ids: Vec<u64>)
        requires
            self.wf(),
        ensures
            forall|k: u64| ids@.contains(k) <==> self@.contains_key(k),
            forall|i: int, j: int| 0 <= i < j < ids@.len() ==> ids@[i] < ids@[j],
    {
        let mut ids: Vec<u64> = Vec::new();
        let mut i: usize = 0;
        while i < self.videos.len()
            invariant
                self.wf(),
                i <= self.videos@.len(),
                ids@.len() == i,
                forall|j: int| 0 <= j < i ==> ids@[j] == self.videos@[j].id,
            decreases self.videos@.len() - i,
        {
            ids.push(self.videos[i].id);
            i += 1;
        }
        proof {
            assert forall|k: u64| ids@.contains(k) <==> self@.contains_key(k) by {
                if ids@.contains(k) {
                    let j = choose|j: int| 0 <= j < ids@.len() && ids@[j] == k;
                    self.lemma_slot(j);
                }
                if self@.contains_key(k) {
                    self.lemma_contains(k);
                    assert(ids@[self.slot(k)] == k);
                }
            }
        }
        ids
    }

    /// The luma and chroma texture contents of `video_id`'s entry.
    pub fn planes(&self, video_id: u64) -> (r: Option<(&[u8], &[u8])>)
        requires
            self.wf(),
        ensures
            self@.contains_key(video_id) ==> (r matches Some(pl) && pl.0@ == self@[video_id].luma && pl.1@
                == self@[video_id].chroma),
            !self@.contains_key(video_id) ==> r is None,
    {
        match self.find(video_id) {
            Some(i) => {
                proof {
                    self.lemma_slot(i as int);
                }
                Some((self.videos[i].texture_y.as_slice(), self.videos[i].texture_uv.as_slice()))
            },
            None => None,
        }
    }

    /// The placement uniform of `video_id`'s entry.
    pub fn placement(&self, video_id: u64) -> (r: Option<PlacementRect>)
        requires
            self.wf(),
        ensures
            self@.contains_key(video_id) ==> r == Some(self@[video_id].rect),
            !self@.contains_key(video_id) ==> r is None,
    {
        match self.find(video_id) {
            Some(i) => {
                proof {
                    self.lemma_slot(i as int);
                }
                Some(self.videos[i].uniforms)
            },
            None => None,
        }
    }

    /// The draw of `video_id`'s frame in `viewport`; none when the stream
    /// has no entry yet (or no longer).
    pub fn draw(&self, viewport: Viewport, video_id: u64) -> (r: Option<DrawCommand>)
        requires
            self.wf(),
        ensures
            self@.contains_key(video_id) ==> r == Some(
                DrawCommand { video_id, viewport, vertices: QUAD_VERTICES, instances: 1 },
            ),
            !self@.contains_key(video_id) ==> r is None,
    {
        match self.find(video_id) {
            Some(_) => Some(DrawCommand { video_id, viewport, vertices: QUAD_VERTICES, instances: 1 }),
            None => None,
        }
    }
}

/// The streams whose liveness reading is false: `readings[i]` is the
/// reading of stream `ids[i]`.
pub fn dead_of(ids: &Vec<u64>, readings: &Vec<bool>) -> (dead: Vec<u64>)
    requires
        ids@.len() == readings@.len(),
    ensures
        forall|k: u64|
            dead@.contains(k) <==> exists|i: int| 0 <= i < ids@.len() && ids@[i] == k && !readings@[i],
{
    let mut dead: Vec<u64> = Vec::new();
    let mut i: usize = 0;
    while i < ids.len()
        invariant
            i <= ids@.len(),
            ids@.len() == readings@.len(),
            forall|k: u64|
                dead@.contains(k) <==> exists|j: int| 0 <= j < i && ids@[j] == k && !readings@[j],
        decreases ids@.len() - i,
    {
        if !readings[i] {
            let ghost prev = dead@;
            dead.push(ids[i]);
            proof {
                assert forall|k: u64|
                    dead@.contains(k) <==> exists|j: int| 0 <= j < i + 1 && ids@[j] == k && !readings@[j] by {
                    if dead@.contains(k) {
                        let w = choose|w: int| 0 <= w < dead@.len() && dead@[w] == k;
                        if w < prev.len() {
                            assert(prev[w] == k);
                            assert(prev.contains(k));
                        } else {
                            assert(ids@[i as int] == k);
                        }
                    }
                    if exists|j: int| 0 <= j < i + 1 && ids@[j] == k && !readings@[j] {
                        let j = choose|j: int| 0 <= j < i + 1 && ids@[j] == k && !readings@[j];
                        if j < i {
                            assert(prev.contains(k));
                            let w = choose|w: int| 0 <= w < prev.len() && prev[w] == k;
                            assert(dead@[w] == k);
                        } else {
                            assert(dead@[prev.len() as int] == k);
                        }
                    }
                }
            }
        } else {
            proof {
                assert forall|k: u64|
                    dead@.contains(k) <==> exists|j: int| 0 <= j < i + 1 && ids@[j] == k && !readings@[j] by {
                    if exists|j: int| 0 <= j < i + 1 && ids@[j] == k && !readings@[j] {
                        let j = choose|j: int| 0 <= j < i + 1 && ids@[j] == k && !readings@[j];
                        assert(j < i);
                    }
                }
            }
        }
        i += 1;
    }
    dead
}

/// Reclaiming is idempotent: with the same liveness readings, a second pass
/// changes nothing and finds no entry to remove.
pub proof fn lemma_reclaim_idempotent(m: Map<u64, EntryView>, dead: Set<u64>)
    ensures
        reclaimed(reclaimed(m, dead), dead) == reclaimed(m, dead),
        reclaimed(m, dead).dom().intersect(dead) == Set::<u64>::empty(),
{
    assert(reclaimed(reclaimed(m, dead), dead) =~= reclaimed(m, dead));
    assert(reclaimed(m, dead).dom().intersect(dead) =~= Set::<u64>::empty());
}

/// Reclaiming removes exactly the dead streams' entries and leaves every
/// other entry as it was, placement included.
pub proof fn lemma_reclaim_keeps_live(m: Map<u64, EntryView>, dead: Set<u64>, id: u64)
    requires
        m.contains_key(id),
    ensures
        dead.contains(id) ==> !reclaimed(m, dead).contains_key(id),
        !dead.contains(id) ==> reclaimed(m, dead).contains_key(id) && reclaimed(m, dead)[id] == m[id],
{
}

/// After an upload for a stream, whatever came before, the table holds
/// exactly one entry for that stream.
pub proof fn lemma_single_entry(
    before: VideoPipeline,
    after: VideoPipeline,
    id: u64,
    width: u32,
    height: u32,
    frame: Seq<u8>,
)
    requires
        after.wf(),
        after@ == upload_spec(before@, id, width, height, frame),
    ensures
        after.slots_of(id).len() == 1,
{
    assert(after@.contains_key(id));
    after.lemma_contains(id);
    let i = after.slot(id);
    assert forall|j: int| after.slots_of(id).contains(j) implies j == i by {
        if j < i {
            assert(after.videos@[j].id < after.videos@[i].id);
        } else if j > i {
            assert(after.videos@[i].id < after.videos@[j].id);
        }
    }
    assert(after.slots_of(id) =~= set![i]);
}

impl EntryView {
    /// The textures have the sizes that the dimensions give.
    pub open spec fn well_sized(&self) -> bool {
        &&& valid_dims(self.width, self.height)
        &&& self.luma.len() == luma_len(self.width, self.height)
        &&& self.chroma.len() == chroma_len(self.width, self.height)
    }
}

} // verus!
