//! The assembled storage core: configuration, the blob and thumbnail
//! stores, the topic-record store, and the thumbnail queue, with the
//! end-to-end upload flow.

use vstd::prelude::*;
use crate::errors::ServerErr;
use crate::crypto::PublicKey;
use crate::pipeline::{process_one, ThumbQueue, THUMBNAIL_MAX_SIZE};
use crate::store::{media_name_of, BlobStore, TopicStore};
use crate::topic::{add_new, replay, uids_view, MediaUid, TopicData, TopicDataView};

verus! {

/// Server configuration.
#[derive(Clone, Debug)]
pub struct Args {
    pub root_dir: String,
    pub port: u32,
    pub migrate: bool,
    pub db_path: String,
}

impl Default for Args {
    /// The stock configuration: current directory, port 2342, no
    /// migration, a local topic database path.
    fn default() -> (a: Args)
        ensures
            a.root_dir@ == "."@,
            a.port == 2342,
            !a.migrate,
            a.db_path@ == "./topic_db"@,
    {
        Args {
            root_dir: String::from_str("."),
            port: 2342,
            migrate: false,
            db_path: String::from_str("./topic_db"),
        }
    }
}

/// All process-wide state, explicitly constructed and injected rather than
/// ambient: the stores, the topic records, and the thumbnail queue.
pub struct ServerState {
    pub args: Args,
    pub store: BlobStore,
    pub thumbs: BlobStore,
    pub topics: TopicStore,
    pub queue: ThumbQueue,
}

/// The membership a record store currently derives for a key: replay of the
/// stored log, or empty when no record exists yet.
pub open spec fn stored_membership(
    m: Map<Seq<char>, TopicDataView>,
    key: Seq<char>,
) -> Seq<Seq<char>> {
    if m.dom().contains(key) {
        replay(m[key].revs)
    } else {
        Seq::empty()
    }
}

/// The owner a record store has bound for a key, if any.
pub open spec fn recorded_owner(m: Map<Seq<char>, TopicDataView>, key: Seq<char>) -> Option<
    Seq<u8>,
> {
    if m.dom().contains(key) {
        m[key].owner
    } else {
        None
    }
}

/// Record an uploaded item under a topic key: append to the existing record,
/// or lazily create the record. A brand-new topic binds `owner` at this
/// first write; an existing record keeps the owner it has.
pub fn record_upload(
    topics: &mut TopicStore,
    key: &str,
    topic_name: &str,
    owner: Option<PublicKey>,
    fname: MediaUid,
)
    requires
        old(topics).wf(),
    ensures
        final(topics).wf(),
        final(topics)@ == old(topics)@.insert(key@, final(topics)@[key@]),
        final(topics)@.dom().contains(key@),
        replay(final(topics)@[key@].revs) == add_new(
            stored_membership(old(topics)@, key@),
            seq![fname@],
        ),
        final(topics)@[key@].name == if old(topics)@.dom().contains(key@) {
            old(topics)@[key@].name
        } else {
            topic_name@
        },
        final(topics)@[key@].owner == if old(topics)@.dom().contains(key@) {
            old(topics)@[key@].owner
        } else {
            crate::crypto::owner_view(owner)
        },
{
    let ghost fview = fname@;
    let ghost m0 = topics@;
    match topics.remove(key) {
        Some(mut td) => {
            let mut batch: Vec<MediaUid> = Vec::new();
            batch.push(fname);
            proof {
                assert(uids_view(batch@) =~= seq![fview]);
            }
            td.add(batch);
            let ghost tdv = td@;
            topics.put(String::from_str(key), td);
            proof {
                assert(final(topics)@ =~= m0.insert(key@, tdv));
            }
        },
        None => {
            let mut batch: Vec<MediaUid> = Vec::new();
            batch.push(fname);
            proof {
                assert(uids_view(batch@) =~= seq![fview]);
            }
            let td = TopicData::new(String::from_str(topic_name), owner, batch);
            let ghost tdv = td@;
            topics.put(String::from_str(key), td);
            proof {
                assert(m0.remove(key@) =~= m0);
                assert(final(topics)@ =~= m0.insert(key@, tdv));
            }
        },
    }
}

/// The recorded owner of a topic: `NotFound` when the record is missing or
/// carries no owner.
pub fn topic_owner(topics: &TopicStore, key: &str) -> (r: Result<PublicKey, ServerErr>)
    requires
        topics.wf(),
    ensures
        r is Ok <==> (topics@.dom().contains(key@) && topics@[key@].owner is Some),
        r is Ok ==> Some(r->Ok_0@) == topics@[key@].owner,
        r is Err ==> r->Err_0 == ServerErr::NotFound,
{
    match topics.get(key) {
        Some(td) => match &td.owner {
            Some(k) => Ok(*k),
            None => Err(ServerErr::NotFound),
        },
        None => Err(ServerErr::NotFound),
    }
}

impl ServerState {
    /// All components well-formed.
    pub open spec fn wf(&self) -> bool {
        &&& self.store.wf()
        &&& self.thumbs.wf()
        &&& self.topics.wf()
    }

    /// A fresh core with empty stores and an idle pipeline.
    pub fn new(args: Args) -> (s: ServerState)
        ensures
            s.wf(),
            s.store@ == Map::<Seq<char>, Seq<u8>>::empty(),
            s.thumbs@ == Map::<Seq<char>, Seq<u8>>::empty(),
            s.topics@ == Map::<Seq<char>, TopicDataView>::empty(),
            s.queue@ == Seq::<Seq<char>>::empty(),
    {
        ServerState {
            args,
            store: BlobStore::new(),
            thumbs: BlobStore::new(),
            topics: TopicStore::new(),
            queue: ThumbQueue::new(),
        }
    }

    /// One complete upload: ingest the bytes content-addressed, record the
    /// derived name under the topic, and enqueue it for thumbnailing. A
    /// byte-identical duplicate changes the blob store by nothing and the
    /// topic membership by at most first appearance.
    pub fn upload(&mut self, topic_key: &str, topic_name: &str, bytes: Vec<u8>, ext: &str) -> (fname:
        String)
        requires
            old(self).wf(),
        ensures
            final(self).wf(),
            fname@ == media_name_of(bytes@, ext@),
            final(self).store@ == if old(self).store@.dom().contains(fname@) {
                old(self).store@
            } else {
                old(self).store@.insert(fname@, bytes@)
            },
            final(self).store@.dom().contains(fname@),
            final(self).store.count() == if old(self).store@.dom().contains(fname@) {
                old(self).store.count()
            } else {
                old(self).store.count() + 1
            },
            final(self).topics@ == old(self).topics@.insert(
                topic_key@,
                final(self).topics@[topic_key@],
            ),
            replay(final(self).topics@[topic_key@].revs) == add_new(
                stored_membership(old(self).topics@, topic_key@),
                seq![fname@],
            ),
            final(self).queue@ == old(self).queue@.push(fname@),
            final(self).thumbs@ == old(self).thumbs@,
    {
        let fname = self.store.ingest(bytes, ext);
        record_upload(&mut self.topics, topic_key, topic_name, None, fname.clone());
        self.queue.enqueue(fname.clone());
        fname
    }

    /// An ownership-gated upload: the guard authorizes the write against the
    /// session and the topic's recorded owner before anything is stored,
    /// and a brand-new topic binds the verified key as its owner. On
    /// refusal, nothing changes anywhere.
    pub fn upload_authorized(
        &mut self,
        session: &crate::crypto::Session,
        claimed_id: &str,
        topic_key: &str,
        topic_name: &str,
        bytes: Vec<u8>,
        ext: &str,
    ) -> (r: Result<String, ServerErr>)
        requires
            old(self).wf(),
        ensures
            final(self).wf(),
            r is Ok <==> crate::crypto::write_allowed(
                session@,
                claimed_id@,
                recorded_owner(old(self).topics@, topic_key@),
            ),
            r is Err ==> (final(self).store@ == old(self).store@ && final(self).topics@ == old(
                self,
            ).topics@ && final(self).queue@ == old(self).queue@ && final(self).thumbs@ == old(
                self,
            ).thumbs@ && r->Err_0 == ServerErr::Unauthorized),
            r is Ok ==> {
                let fname = r->Ok_0@;
                &&& fname == media_name_of(bytes@, ext@)
                &&& final(self).store@.dom().contains(fname)
                &&& replay(final(self).topics@[topic_key@].revs) == add_new(
                    stored_membership(old(self).topics@, topic_key@),
                    seq![fname],
                )
                &&& final(self).topics@[topic_key@].owner == (
                if old(self).topics@.dom().contains(topic_key@) {
                    old(self).topics@[topic_key@].owner
                } else {
                    Some(session@.verified->0)
                })
                &&& final(self).queue@ == old(self).queue@.push(fname)
            },
    {
        let existing_owner = match self.topics.get(topic_key) {
            Some(td) => td.owner,
            None => None,
        };
        let verified = match crate::crypto::authorize_write(session, claimed_id, &existing_owner) {
            Ok(k) => k,
            Err(e) => {
                return Err(e);
            },
        };
        let fname = self.store.ingest(bytes, ext);
        record_upload(&mut self.topics, topic_key, topic_name, Some(verified), fname.clone());
        self.queue.enqueue(fname.clone());
        Ok(fname)
    }

    /// Let the background consumer process one queued item, bounded to the
    /// stock thumbnail size.
    pub fn process_next(&mut self) -> (r: Option<Result<(), ServerErr>>)
        requires
            old(self).wf(),
        ensures
            final(self).wf(),
            final(self).store@ == old(self).store@,
            final(self).topics@ == old(self).topics@,
            old(self).queue@.len() == 0 ==> (final(self).queue@ == old(self).queue@
                && final(self).thumbs@ == old(self).thumbs@
                && r is None),
            old(self).queue@.len() > 0 ==> final(self).queue@ == old(self).queue@.drop_first()
                && final(self).thumbs@ == crate::pipeline::step_thumbs(
                old(self).queue@[0],
                old(self).store@,
                old(self).thumbs@,
                THUMBNAIL_MAX_SIZE,
            ) && r is Some,
    {
        process_one(&mut self.queue, &self.store, &mut self.thumbs, THUMBNAIL_MAX_SIZE)
    }

    /// Let the background consumer drain the whole queue, one item at a
    /// time, every failure confined to its own item.
    pub fn drain(&mut self)
        requires
            old(self).wf(),
        ensures
            final(self).wf(),
            final(self).store@ == old(self).store@,
            final(self).topics@ == old(self).topics@,
            final(self).queue@.len() == 0,
            final(self).thumbs@ == crate::pipeline::drained_thumbs(
                old(self).queue@,
                old(self).store@,
                old(self).thumbs@,
                THUMBNAIL_MAX_SIZE,
            ),
    {
        loop
            invariant
                self.wf(),
                self.store@ == old(self).store@,
                self.topics@ == old(self).topics@,
                crate::pipeline::drained_thumbs(
                    self.queue@,
                    self.store@,
                    self.thumbs@,
                    THUMBNAIL_MAX_SIZE,
                ) == crate::pipeline::drained_thumbs(
                    old(self).queue@,
                    old(self).store@,
                    old(self).thumbs@,
                    THUMBNAIL_MAX_SIZE,
                ),
            ensures
                self.wf(),
                self.store@ == old(self).store@,
                self.topics@ == old(self).topics@,
                self.queue@.len() == 0,
                crate::pipeline::drained_thumbs(
                    self.queue@,
                    self.store@,
                    self.thumbs@,
                    THUMBNAIL_MAX_SIZE,
                ) == crate::pipeline::drained_thumbs(
                    old(self).queue@,
                    old(self).store@,
                    old(self).thumbs@,
                    THUMBNAIL_MAX_SIZE,
                ),
            decreases self.queue@.len(),
        {
            if self.queue.len() == 0 {
                break;
            }
            let _ = self.process_next();
        }
    }
}

} // verus!
