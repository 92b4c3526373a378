//! The thumbnail pipeline: a FIFO queue of stored blob names drained by a
//! single background consumer, one item at a time. Thumbnailing is
//! best-effort: enqueueing never fails an upload, and a corrupt item is
//! skipped without disturbing the items behind it.

use vstd::prelude::*;
use crate::errors::ServerErr;
use crate::media::{ext_of_name, is_thumbable, name_extension};
use crate::store::BlobStore;
use crate::text::str_eq;

verus! {

/// What decoding, scaling and re-encoding a blob yields: `Ok` with the
/// derivative's bytes, or `Err` when the bytes are not a decodable image.
/// A pure function of the bytes and the size bound.
pub uninterp spec fn thumbnail_result(b: Seq<u8>, max: u32) -> Result<Seq<u8>, ()>;

/// The longer edge of a thumbnail is bounded by this many pixels.
pub const THUMBNAIL_MAX_SIZE: u32 = 500;

/// Relies on the image crate: guess_format, load_from_memory,
/// DynamicImage::thumbnail (aspect-preserving scale so the longer edge is at
/// most `max`) and write_to in the source format. All are deterministic in
/// the input bytes; undecodable bytes give `Err`.
#[verifier::external_body]
fn render_thumbnail(bytes: &Vec<u8>, max: u32) -> (r: Result<Vec<u8>, ()>)
    ensures
        r is Ok <==> thumbnail_result(bytes@, max) is Ok,
        r is Ok ==> r->Ok_0@ == thumbnail_result(bytes@, max)->Ok_0,
{
    let fmt = image::guess_format(bytes.as_slice()).map_err(|_| ())?;
    let img = image::load_from_memory(bytes.as_slice()).map_err(|_| ())?;
    let thumb = img.thumbnail(max, max);
    let mut out = std::io::Cursor::new(Vec::new());
    thumb.write_to(&mut out, fmt).map_err(|_| ())?;
    Ok(out.into_inner())
}

/// The unbounded FIFO queue of blob names awaiting thumbnailing.
pub struct ThumbQueue {
    items: Vec<String>,
}

impl View for ThumbQueue {
    type V = Seq<Seq<char>>;

    closed spec fn view(&self) -> Seq<Seq<char>> {
        self.items@.map_values(|s: String| s@)
    }
}

impl ThumbQueue {
    /// An empty queue.
    pub fn new() -> (q: ThumbQueue)
        ensures
            q@ == Seq::<Seq<char>>::empty(),
    {
        let q = ThumbQueue { items: Vec::new() };
        proof {
            assert(q@ =~= Seq::<Seq<char>>::empty());
        }
        q
    }

    /// Fire-and-forget enqueue: appends and never blocks or fails.
    pub fn enqueue(&mut self, name: String)
        ensures
            final(self)@ == old(self)@.push(name@),
    {
        let ghost nview = name@;
        self.items.push(name);
        proof {
            assert(final(self)@ =~= old(self)@.push(nview));
        }
    }

    /// How many items wait.
    pub fn len(&self) -> (n: usize)
        ensures
            n == self@.len(),
    {
        self.items.len()
    }
}

/// What one pipeline step does to the thumbnail store when it consumes
/// `name`: a stored, thumbnailable, decodable blob gets its derivative
/// written under the same name; anything else leaves the store untouched.
pub open spec fn step_thumbs(
    name: Seq<char>,
    store: Map<Seq<char>, Seq<u8>>,
    thumbs: Map<Seq<char>, Seq<u8>>,
    max: u32,
) -> Map<Seq<char>, Seq<u8>> {
    if store.dom().contains(name) && is_thumbable(ext_of_name(name)) && thumbnail_result(
        store[name],
        max,
    ) is Ok {
        thumbs.insert(name, thumbnail_result(store[name], max)->Ok_0)
    } else {
        thumbs
    }
}

/// Drain one item from the queue and process it: decode, scale, and store
/// the derivative under the source name. Every failure is confined to the
/// item itself — the queue always advances and the error is only reported.
pub fn process_one(queue: &mut ThumbQueue, store: &BlobStore, thumbs: &mut BlobStore, max: u32) -> (r:
    Option<Result<(), ServerErr>>)
    requires
        store.wf(),
        old(thumbs).wf(),
    ensures
        final(thumbs).wf(),
        old(queue)@.len() == 0 ==> final(queue)@ == old(queue)@ && final(thumbs)@ == old(thumbs)@
            && r is None,
        old(queue)@.len() > 0 ==> {
            &&& final(queue)@ == old(queue)@.drop_first()
            &&& final(thumbs)@ == step_thumbs(old(queue)@[0], store@, old(thumbs)@, max)
            &&& r matches Some(outcome) && (outcome is Ok <==> (store@.dom().contains(
                old(queue)@[0],
            ) && (is_thumbable(ext_of_name(old(queue)@[0])) ==> thumbnail_result(
                store@[old(queue)@[0]],
                max,
            ) is Ok)))
        },
{
    if queue.items.len() == 0 {
        return None;
    }
    let name = queue.items.remove(0);
    proof {
        assert(final(queue)@ =~= old(queue)@.drop_first());
        assert(name@ == old(queue)@[0]);
    }
    let bytes = match store.get(name.as_str()) {
        Some(b) => b,
        None => {
            return Some(Err(ServerErr::NotFound));
        },
    };
    let ext = name_extension(name.as_str());
    let thumbable = str_eq(ext.as_str(), "png") || str_eq(ext.as_str(), "jpg") || str_eq(
        ext.as_str(),
        "jpeg",
    );
    if !thumbable {
        return Some(Ok(()));
    }
    match render_thumbnail(bytes, max) {
        Ok(thumb) => {
            thumbs.put(name, thumb);
            Some(Ok(()))
        },
        Err(_) => Some(Err(ServerErr::CorruptDerivedAsset)),
    }
}

/// The thumbnail store after the consumer has drained a whole queue, item
/// by item in order.
pub open spec fn drained_thumbs(
    q: Seq<Seq<char>>,
    store: Map<Seq<char>, Seq<u8>>,
    thumbs: Map<Seq<char>, Seq<u8>>,
    max: u32,
) -> Map<Seq<char>, Seq<u8>>
    decreases q.len(),
{
    if q.len() == 0 {
        thumbs
    } else {
        drained_thumbs(q.drop_first(), store, step_thumbs(q[0], store, thumbs, max), max)
    }
}

/// Law: thumbnail failure isolation. A step that produces no thumbnail —
/// the blob is missing, not an image extension, or corrupt — leaves the
/// thumbnail store exactly as it was, so the next item is processed exactly
/// as if the failing one had never been enqueued.
pub proof fn lemma_thumbnail_failure_isolation(
    n1: Seq<char>,
    n2: Seq<char>,
    store: Map<Seq<char>, Seq<u8>>,
    thumbs: Map<Seq<char>, Seq<u8>>,
    max: u32,
)
    requires
        !(store.dom().contains(n1) && is_thumbable(ext_of_name(n1)) && thumbnail_result(
            store[n1],
            max,
        ) is Ok),
    ensures
        step_thumbs(n1, store, thumbs, max) == thumbs,
        step_thumbs(n2, store, step_thumbs(n1, store, thumbs, max), max) == step_thumbs(
            n2,
            store,
            thumbs,
            max,
        ),
{
}

} // verus!
