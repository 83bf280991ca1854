//! One draw request for one stream, and the single-slot frame handoff
//! between the decoding producer and the render consumer.

use crate::pipeline::{
    chroma_len, luma_len, placed, reclaimed, upload_spec, valid_dims, DrawCommand, EntryView, PlacementRect, VideoPipeline, Viewport,
    QUAD_VERTICES,
};
use std::sync::atomic::{AtomicBool, Ordering};
use std::sync::{Arc, Mutex};
use vstd::prelude::*;

verus! {

#[verifier::external_type_specification]
#[verifier::external_body]
#[verifier::reject_recursive_types(T)]
pub struct ExMutex<T: ?Sized>(std::sync::Mutex<T>);

/// Relies on std::sync::Mutex::new: a new unlocked mutex around `bytes`.
#[verifier::external_body]
fn new_frame_lock(bytes: Vec<u8>) -> (m: Mutex<Vec<u8>>) {
    Mutex::new(bytes)
}

/// Relies on std::sync::Mutex::lock: the lock is held only while the frame
/// is copied out; `None` when a holder panicked (the mutex is poisoned).
#[verifier::external_body]
fn read_frame(frame: &Mutex<Vec<u8>>) -> (r: Option<Vec<u8>>) {
    match frame.lock() {
        Ok(guard) => Some(guard.clone()),
        Err(_) => None,
    }
}

/// Relies on std::sync::Mutex::lock: the lock is held only while the frame
/// is replaced; `false` when the mutex is poisoned.
#[verifier::external_body]
fn write_frame(frame: &Mutex<Vec<u8>>, bytes: Vec<u8>) -> (ok: bool) {
    match frame.lock() {
        Ok(mut guard) => {
            *guard = bytes;
            true
        },
        Err(_) => false,
    }
}

/// The render context's registry: the shared pipeline, built on the first
/// draw request and reused after.
pub struct Storage {
    pub pipeline: Option<VideoPipeline>,
}

/// The resource table held by a storage; empty before the pipeline exists.
pub open spec fn table_of(s: &Storage) -> Map<u64, EntryView> {
    match s.pipeline {
        Some(p) => p@,
        None => Map::empty(),
    }
}

impl Storage {
    /// An empty registry.
    pub fn new() -> (s: Storage)
        ensures
            s.pipeline is None,
            s.wf(),
    {
        Storage { pipeline: None }
    }

    pub open spec fn wf(&self) -> bool {
        match self.pipeline {
            Some(p) => p.wf(),
            None => true,
        }
    }
}

/// A frame buffer that holds a whole frame of the given size: even sides
/// of at least 2, and at least `width*height*3/2` bytes.
pub open spec fn frame_fits(size: (u32, u32), bytes: Seq<u8>) -> bool {
    valid_dims(size.0, size.1) && bytes.len() >= luma_len(size.0, size.1) + chroma_len(size.0, size.1)
}

/// The bytes of a frame read from the mailbox, if the read succeeded.
pub open spec fn read_view(read: Option<Vec<u8>>) -> Option<Seq<u8>> {
    match read {
        Some(v) => Some(v@),
        None => None,
    }
}

/// The table `before` after the conditional upload of a draw request, given
/// what reading the mailbox gave: the frame is uploaded for the stream
/// exactly when the request carries a new frame, the read succeeded and the
/// bytes hold a whole frame of the request's size; otherwise the table is
/// unchanged.
pub open spec fn upload_of_read(
    before: Map<u64, EntryView>,
    upload_frame: bool,
    video_id: u64,
    size: (u32, u32),
    read: Option<Seq<u8>>,
) -> Map<u64, EntryView> {
    if upload_frame && read is Some && frame_fits(size, read.unwrap()) {
        upload_spec(before, video_id, size.0, size.1, read.unwrap())
    } else {
        before
    }
}

/// Relies on std's `Clone` for `Arc`: a new handle to the same shared value.
#[verifier::external_body]
fn share<T>(a: &Arc<T>) -> (r: Arc<T>)
    ensures
        r == *a,
{
    Arc::clone(a)
}

/// One draw request for one stream.
pub struct VideoPrimitive {
    pub video_id: u64,
    pub alive: Arc<AtomicBool>,
    pub frame: Arc<Mutex<Vec<u8>>>,
    pub size: (u32, u32),
    pub upload_frame: bool,
}

impl VideoPrimitive {
    pub fn new(
        video_id: u64,
        alive: Arc<AtomicBool>,
        frame: Arc<Mutex<Vec<u8>>>,
        size: (u32, u32),
        upload_frame: bool,
    ) -> (r: VideoPrimitive)
        ensures
            r.video_id == video_id,
            r.alive == alive,
            r.frame == frame,
            r.size == size,
            r.upload_frame == upload_frame,
    {
        VideoPrimitive { video_id, alive, frame, size, upload_frame }
    }

    /// Uploads the frame that reading the mailbox gave, when the request
    /// carries a new frame and the bytes hold a whole frame of its size.
    pub fn upload_read(&self, pipeline: &mut VideoPipeline, read: Option<Vec<u8>>)
        requires
            old(pipeline).wf(),
        ensures
            final(pipeline).wf(),
            final(pipeline).surface_format() == old(pipeline).surface_format(),
            final(pipeline)@ == upload_of_read(old(pipeline)@, self.upload_frame, self.video_id, self.size, read_view(read)),
    {
        let (width, height) = self.size;
        if self.upload_frame && width >= 2 && height >= 2 && width % 2 == 0 && height % 2 == 0 {
            match read {
                None => {},
                Some(bytes) => {
                    proof {
                        assert(width as int * height as int <= 0xffff_ffff * 0xffff_ffff) by (nonlinear_arith)
                            requires
                                width <= 0xffff_ffff,
                                height <= 0xffff_ffff,
                        ;
                    }
                    let needed: u128 = width as u128 * height as u128 * 3 / 2;
                    if bytes.len() as u128 >= needed {
                        pipeline.upload(self.video_id, &self.alive, self.size, bytes.as_slice());
                    }
                },
            }
        }
    }

    /// Reads the mailbox when the request carries a new frame of valid
    /// size, and uploads what was read.
    fn upload_current(&self, pipeline: &mut VideoPipeline)
        requires
            old(pipeline).wf(),
        ensures
            final(pipeline).wf(),
            final(pipeline).surface_format() == old(pipeline).surface_format(),
            exists|read: Option<Seq<u8>>|
                final(pipeline)@ == upload_of_read(old(pipeline)@, self.upload_frame, self.video_id, self.size, read),
    {
        let (width, height) = self.size;
        let read = if self.upload_frame && width >= 2 && height >= 2 && width % 2 == 0 && height % 2 == 0 {
            read_frame(&self.frame)
        } else {
            None
        };
        let ghost rv = read_view(read);
        self.upload_read(pipeline, read);
        assert(pipeline@ == upload_of_read(old(pipeline)@, self.upload_frame, self.video_id, self.size, rv));
    }

    /// Runs one draw request: builds the shared pipeline if the storage has
    /// none; uploads the frame only when the request carries a new one;
    /// always writes the placement `bounds`; then reclaims the entries of
    /// torn-down streams, whose ids it returns.
    pub fn prepare(&self, storage: &mut Storage, format: u32, bounds: PlacementRect) -> (removed: Vec<u64>)
        requires
            old(storage).wf(),
        ensures
            final(storage).wf(),
            final(storage).pipeline is Some,
            old(storage).pipeline is None ==> final(storage).pipeline.unwrap().surface_format() == format,
            old(storage).pipeline is Some ==> final(storage).pipeline.unwrap().surface_format()
                == old(storage).pipeline.unwrap().surface_format(),
            exists|mid: Map<u64, EntryView>, dead: Set<u64>|
                {
                    &&& exists|read: Option<Seq<u8>>|
                        mid == upload_of_read(table_of(old(storage)), self.upload_frame, self.video_id, self.size, read)
                    &&& table_of(final(storage)) == reclaimed(placed(mid, self.video_id, bounds), dead)
                    &&& removed@.to_set() == placed(mid, self.video_id, bounds).dom().difference(
                        table_of(final(storage)).dom(),
                    )
                },
            !self.upload_frame || !valid_dims(self.size.0, self.size.1) ==> exists|dead: Set<u64>|
                table_of(final(storage)) == reclaimed(placed(table_of(old(storage)), self.video_id, bounds), dead),
    {
        let mut pipeline = match storage.pipeline.take() {
            Some(p) => p,
            None => {
                let p = VideoPipeline::new(format);
                proof {
                    assert(p@ == table_of(old(storage)));
                }
                p
            },
        };
        let ghost before = pipeline@;
        self.upload_current(&mut pipeline);
        let ghost mid = pipeline@;
        let ghost rd = choose|read: Option<Seq<u8>>|
            mid == upload_of_read(before, self.upload_frame, self.video_id, self.size, read);
        let removed = pipeline.prepare(self.video_id, bounds);
        storage.pipeline = Some(pipeline);
        proof {
            let dead = choose|dead: Set<u64>| table_of(storage) == reclaimed(placed(mid, self.video_id, bounds), dead);
            assert(table_of(storage) == reclaimed(placed(mid, self.video_id, bounds), dead));
            assert(mid == upload_of_read(before, self.upload_frame, self.video_id, self.size, rd));
            if !self.upload_frame || !valid_dims(self.size.0, self.size.1) {
                assert(mid == before);
            }
        }
        removed
    }

    /// The draw for this request's stream; none before the pipeline is
    /// built or while the stream has no entry.
    pub fn render(&self, storage: &Storage, clip_bounds: Viewport) -> (r: Option<DrawCommand>)
        requires
            storage.wf(),
        ensures
            table_of(storage).contains_key(self.video_id) ==> r == Some(
                DrawCommand { video_id: self.video_id, viewport: clip_bounds, vertices: QUAD_VERTICES, instances: 1 },
            ),
            !table_of(storage).contains_key(self.video_id) ==> r is None,
    {
        match &storage.pipeline {
            Some(p) => p.draw(clip_bounds, self.video_id),
            None => None,
        }
    }
}

/// A draw request that carries no new frame leaves the textures of every
/// stream as they were: each entry still there holds the same luma and
/// chroma bytes.
pub proof fn lemma_no_upload_keeps_textures(
    before: Map<u64, EntryView>,
    after: Map<u64, EntryView>,
    video_id: u64,
    bounds: PlacementRect,
    dead: Set<u64>,
)
    requires
        after == reclaimed(placed(before, video_id, bounds), dead),
    ensures
        forall|k: u64|
            #[trigger] after.contains_key(k) ==> before.contains_key(k) && after[k].luma == before[k].luma
                && after[k].chroma == before[k].chroma && after[k].width == before[k].width
                && after[k].height == before[k].height,
{
}

/// The single-slot mailbox between the decoder and the renderer: the
/// latest complete frame, and a flag raised when it has not been uploaded.
pub struct FrameBuffer {
    pub frame: Arc<Mutex<Vec<u8>>>,
    pub upload_frame: Arc<AtomicBool>,
}

impl FrameBuffer {
    /// A mailbox holding `initial`, with no new frame pending.
    pub fn new(initial: Vec<u8>) -> (r: FrameBuffer) {
        FrameBuffer {
            frame: Arc::new(new_frame_lock(initial)),
            upload_frame: Arc::new(AtomicBool::new(false)),
        }
    }

    /// Producer side: replaces the frame, then raises the flag, so that a
    /// reader who sees the flag sees the whole frame. A newer frame simply
    /// overwrites one that was not drawn. Returns whether the frame was
    /// stored (not when the lock is poisoned).
    pub fn publish(&self, bytes: Vec<u8>) -> (stored: bool) {
        if write_frame(&self.frame, bytes) {
            self.upload_frame.store(true, Ordering::SeqCst);
            true
        } else {
            false
        }
    }

    /// Consumer side: atomically lowers the flag and says whether it was
    /// raised, so that each published frame is uploaded at most once.
    pub fn take_new_frame(&self) -> (new_frame: bool) {
        self.upload_frame.swap(false, Ordering::SeqCst)
    }

    /// The draw request for this mailbox's stream: it shares the mailbox's
    /// frame slot and the stream's liveness flag, and carries the frame for
    /// upload exactly when a new one was pending (the flag is lowered).
    pub fn primitive(&self, video_id: u64, alive: &Arc<AtomicBool>, size: (u32, u32)) -> (r: VideoPrimitive)
        ensures
            r.video_id == video_id,
            r.size == size,
            r.frame == self.frame,
            r.alive == *alive,
    {
        let upload_frame = self.take_new_frame();
        VideoPrimitive::new(video_id, share(alive), share(&self.frame), size, upload_frame)
    }
}

} // verus!
