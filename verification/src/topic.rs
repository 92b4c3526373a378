//! Topics and their append-only revision logs.
//!
//! A topic's membership is never stored: it is derived by replaying the
//! topic's list of revision operations in order, starting from the empty
//! sequence. `Add` appends items that are not already present, preserving
//! order of first appearance; `Del` removes every matching item.

use vstd::prelude::*;
use crate::crypto::PublicKey;

verus! {

/// A media item is identified by its content-derived file name.
pub type MediaUid = String;

/// One operation of a topic's revision log, immutable once appended.
#[derive(Clone, Debug)]
pub enum RevisionOp {
    Add(Vec<MediaUid>),
    Del(Vec<MediaUid>),
}

/// Mathematical form of a revision operation.
pub enum RevOpView {
    Add(Seq<Seq<char>>),
    Del(Seq<Seq<char>>),
}

/// The views of a sequence of media uids.
pub open spec fn uids_view(v: Seq<MediaUid>) -> Seq<Seq<char>> {
    v.map_values(|m: MediaUid| m@)
}

impl View for RevisionOp {
    type V = RevOpView;

    open spec fn view(&self) -> RevOpView {
        match self {
            RevisionOp::Add(v) => RevOpView::Add(uids_view(v@)),
            RevisionOp::Del(v) => RevOpView::Del(uids_view(v@)),
        }
    }
}

/// Append each item of `items` in order, skipping items already present in
/// the accumulated membership.
pub open spec fn add_new(acc: Seq<Seq<char>>, items: Seq<Seq<char>>) -> Seq<Seq<char>>
    decreases items.len(),
{
    if items.len() == 0 {
        acc
    } else {
        let prev = add_new(acc, items.drop_last());
        if prev.contains(items.last()) {
            prev
        } else {
            prev.push(items.last())
        }
    }
}

/// Remove from `acc` every item that occurs in `items`, keeping the order of
/// the rest.
pub open spec fn del_all(acc: Seq<Seq<char>>, items: Seq<Seq<char>>) -> Seq<Seq<char>>
    decreases acc.len(),
{
    if acc.len() == 0 {
        Seq::empty()
    } else {
        let prev = del_all(acc.drop_last(), items);
        if items.contains(acc.last()) {
            prev
        } else {
            prev.push(acc.last())
        }
    }
}

/// One step of the replay fold.
pub open spec fn apply_op(acc: Seq<Seq<char>>, op: RevOpView) -> Seq<Seq<char>> {
    match op {
        RevOpView::Add(items) => add_new(acc, items),
        RevOpView::Del(items) => del_all(acc, items),
    }
}

/// The derived membership of a log: a pure left-fold of `apply_op` over the
/// operations, starting from the empty sequence.
pub open spec fn replay(revs: Seq<RevOpView>) -> Seq<Seq<char>>
    decreases revs.len(),
{
    if revs.len() == 0 {
        Seq::empty()
    } else {
        apply_op(replay(revs.drop_last()), revs.last())
    }
}

/// Filter `items` down to those not present in `cur`, keeping order and
/// within-batch duplicates, as the stored log records them.
pub open spec fn keep_fresh(items: Seq<Seq<char>>, cur: Seq<Seq<char>>) -> Seq<Seq<char>>
    decreases items.len(),
{
    if items.len() == 0 {
        Seq::empty()
    } else {
        let prev = keep_fresh(items.drop_last(), cur);
        if cur.contains(items.last()) {
            prev
        } else {
            prev.push(items.last())
        }
    }
}

/// Mathematical form of a topic record.
pub struct TopicDataView {
    pub name: Seq<char>,
    pub revs: Seq<RevOpView>,
    pub owner: Option<Seq<u8>>,
}

/// A topic: its name, its revision log, and the owner key bound at first
/// authenticated write, if any.
#[derive(Clone, Debug)]
pub struct TopicData {
    pub name: String,
    pub revs: Vec<RevisionOp>,
    pub owner: Option<PublicKey>,
}

impl View for TopicData {
    type V = TopicDataView;

    open spec fn view(&self) -> TopicDataView {
        TopicDataView {
            name: self.name@,
            revs: self.revs@.map_values(|op: RevisionOp| op@),
            owner: match self.owner {
                Some(k) => Some(k@),
                None => None,
            },
        }
    }
}

/// Membership check against a list of uids.
fn contains_uid(v: &Vec<MediaUid>, m: &MediaUid) -> (r: bool)
    ensures
        r == uids_view(v@).contains(m@),
{
    let mut i: usize = 0;
    while i < v.len()
        invariant
            i <= v@.len(),
            forall|k: int| 0 <= k < i ==> uids_view(v@)[k] != m@,
        decreases v@.len() - i,
    {
        if v[i] == *m {
            assert(uids_view(v@)[i as int] == m@);
            return true;
        }
        i += 1;
    }
    assert(!uids_view(v@).contains(m@));
    false
}

proof fn lemma_replay_take_step(revs: Seq<RevOpView>, i: int)
    requires
        0 <= i < revs.len(),
    ensures
        replay(revs.take(i + 1)) == apply_op(replay(revs.take(i)), revs[i]),
{
    assert(revs.take(i + 1).drop_last() =~= revs.take(i));
    assert(revs.take(i + 1).last() == revs[i]);
}

impl TopicData {
    /// Create a topic record and record its initial items as one `Add`.
    pub fn new(name: String, owner: Option<PublicKey>, uids: Vec<MediaUid>) -> (t: TopicData)
        ensures
            t@.name == name@,
            t@.owner == (match owner {
                Some(k) => Some(k@),
                None => None::<Seq<u8>>,
            }),
            replay(t@.revs) == add_new(Seq::empty(), uids_view(uids@)),
    {
        let mut t = TopicData { name, revs: Vec::new(), owner };
        proof {
            assert(t@.revs =~= Seq::<RevOpView>::empty());
        }
        t.add(uids);
        t
    }

    /// Replay the revision log: the current membership, in display order.
    pub fn list(&self) -> (r: Vec<MediaUid>)
        ensures
            uids_view(r@) == replay(self@.revs),
    {
        let ghost revsv = self@.revs;
        let mut acc: Vec<MediaUid> = Vec::new();
        let n = self.revs.len();
        proof {
            assert(uids_view(acc@) =~= Seq::<Seq<char>>::empty());
            assert(revsv.take(0) =~= Seq::<RevOpView>::empty());
        }
        let mut i: usize = 0;
        while i < n
            invariant
                i <= n,
                n == self.revs@.len(),
                revsv == self@.revs,
                revsv.len() == n,
                uids_view(acc@) == replay(revsv.take(i as int)),
            decreases n - i,
        {
            let ghost cur = replay(revsv.take(i as int));
            proof {
                lemma_replay_take_step(revsv, i as int);
                assert(revsv[i as int] == self.revs@[i as int]@);
            }
            match &self.revs[i] {
                RevisionOp::Add(items) => {
                    let ghost itemsv = uids_view(items@);
                    let mut j: usize = 0;
                    proof {
                        assert(itemsv.take(0) =~= Seq::<Seq<char>>::empty());
                    }
                    while j < items.len()
                        invariant
                            j <= items@.len(),
                            itemsv == uids_view(items@),
                            uids_view(acc@) == add_new(cur, itemsv.take(j as int)),
                        decreases items@.len() - j,
                    {
                        proof {
                            assert(itemsv.take(j + 1).drop_last() =~= itemsv.take(j as int));
                            assert(itemsv.take(j + 1).last() == itemsv[j as int]);
                        }
                        if !contains_uid(&acc, &items[j]) {
                            let m = items[j].clone();
                            proof {
                                assert(uids_view(acc@.push(m)) =~= uids_view(acc@).push(m@));
                            }
                            acc.push(m);
                        }
                        j += 1;
                    }
                    proof {
                        assert(itemsv.take(items@.len() as int) =~= itemsv);
                    }
                },
                RevisionOp::Del(items) => {
                    let ghost itemsv = uids_view(items@);
                    let ghost accv = uids_view(acc@);
                    let mut kept: Vec<MediaUid> = Vec::new();
                    let mut j: usize = 0;
                    proof {
                        assert(uids_view(kept@) =~= Seq::<Seq<char>>::empty());
                        assert(accv.take(0) =~= Seq::<Seq<char>>::empty());
                    }
                    while j < acc.len()
                        invariant
                            j <= acc@.len(),
                            accv == uids_view(acc@),
                            itemsv == uids_view(items@),
                            uids_view(kept@) == del_all(accv.take(j as int), itemsv),
                        decreases acc@.len() - j,
                    {
                        proof {
                            assert(accv.take(j + 1).drop_last() =~= accv.take(j as int));
                            assert(accv.take(j + 1).last() == accv[j as int]);
                        }
                        if !contains_uid(items, &acc[j]) {
                            let m = acc[j].clone();
                            proof {
                                assert(uids_view(kept@.push(m)) =~= uids_view(kept@).push(m@));
                            }
                            kept.push(m);
                        }
                        j += 1;
                    }
                    proof {
                        assert(accv.take(acc@.len() as int) =~= accv);
                    }
                    acc = kept;
                },
            }
            i += 1;
        }
        proof {
            assert(revsv.take(n as int) =~= revsv);
        }
        acc
    }

    /// Whether `media` is in the current membership.
    pub fn contains(&self, media: &MediaUid) -> (r: bool)
        ensures
            r == replay(self@.revs).contains(media@),
    {
        let l = self.list();
        contains_uid(&l, media)
    }

    /// Append one `Add` operation holding the items not already present.
    /// The membership grows by exactly the fresh items, in order.
    pub fn add(&mut self, media: Vec<MediaUid>)
        ensures
            final(self)@.name == old(self)@.name,
            final(self)@.owner == old(self)@.owner,
            final(self)@.revs == old(self)@.revs.push(
                RevOpView::Add(keep_fresh(uids_view(media@), replay(old(self)@.revs))),
            ),
            replay(final(self)@.revs) == add_new(replay(old(self)@.revs), uids_view(media@)),
    {
        let ghost cur = replay(self@.revs);
        let ghost mediav = uids_view(media@);
        let current = self.list();
        let mut fresh: Vec<MediaUid> = Vec::new();
        let mut j: usize = 0;
        proof {
            assert(uids_view(fresh@) =~= Seq::<Seq<char>>::empty());
            assert(mediav.take(0) =~= Seq::<Seq<char>>::empty());
        }
        while j < media.len()
            invariant
                j <= media@.len(),
                mediav == uids_view(media@),
                uids_view(current@) == cur,
                uids_view(fresh@) == keep_fresh(mediav.take(j as int), cur),
            decreases media@.len() - j,
        {
            proof {
                assert(mediav.take(j + 1).drop_last() =~= mediav.take(j as int));
                assert(mediav.take(j + 1).last() == mediav[j as int]);
            }
            if !contains_uid(&current, &media[j]) {
                let m = media[j].clone();
                proof {
                    assert(uids_view(fresh@.push(m)) =~= uids_view(fresh@).push(m@));
                }
                fresh.push(m);
            }
            j += 1;
        }
        proof {
            assert(mediav.take(media@.len() as int) =~= mediav);
        }
        let ghost freshv = uids_view(fresh@);
        self.revs.push(RevisionOp::Add(fresh));
        proof {
            assert(final(self)@.revs =~= old(self)@.revs.push(RevOpView::Add(freshv)));
            assert(replay(final(self)@.revs) == add_new(cur, freshv)) by {
                assert(final(self)@.revs.drop_last() =~= old(self)@.revs);
            }
            lemma_add_new_keep_fresh(cur, mediav);
        }
    }

    /// Append one `Del` operation; the membership loses every listed item.
    pub fn rm(&mut self, media: Vec<MediaUid>)
        ensures
            final(self)@.name == old(self)@.name,
            final(self)@.owner == old(self)@.owner,
            final(self)@.revs == old(self)@.revs.push(RevOpView::Del(uids_view(media@))),
            replay(final(self)@.revs) == del_all(replay(old(self)@.revs), uids_view(media@)),
    {
        let ghost mediav = uids_view(media@);
        self.revs.push(RevisionOp::Del(media));
        proof {
            assert(final(self)@.revs =~= old(self)@.revs.push(RevOpView::Del(mediav)));
            assert(final(self)@.revs.drop_last() =~= old(self)@.revs);
        }
    }

    /// Replace `old_uid` by `new_uid` in the membership, as a `Del` followed
    /// by an `Add`. When `old_uid == new_uid` or `old_uid` is not a member,
    /// the record is left entirely unchanged.
    pub fn rename(&mut self, old_uid: MediaUid, new_uid: MediaUid)
        ensures
            final(self)@.name == old(self)@.name,
            final(self)@.owner == old(self)@.owner,
            (old_uid@ == new_uid@ || !replay(old(self)@.revs).contains(old_uid@)) ==> final(self)@
                == old(self)@ && replay(final(self)@.revs) == replay(old(self)@.revs),
            (old_uid@ != new_uid@ && replay(old(self)@.revs).contains(old_uid@)) ==> replay(
                final(self)@.revs,
            ) == add_new(del_all(replay(old(self)@.revs), seq![old_uid@]), seq![new_uid@]),
    {
        let same = old_uid == new_uid;
        if same || !self.contains(&old_uid) {
            return;
        }
        let mut del_batch: Vec<MediaUid> = Vec::new();
        del_batch.push(old_uid);
        proof {
            assert(uids_view(del_batch@) =~= seq![del_batch@[0]@]);
        }
        self.rm(del_batch);
        let mut add_batch: Vec<MediaUid> = Vec::new();
        add_batch.push(new_uid);
        proof {
            assert(uids_view(add_batch@) =~= seq![add_batch@[0]@]);
        }
        self.add(add_batch);
    }
}

/// Items already present never change what `add_new` produces: the stored
/// log may filter them out first without changing the replayed membership.
proof fn lemma_add_new_keep_fresh(cur: Seq<Seq<char>>, items: Seq<Seq<char>>)
    ensures
        add_new(cur, keep_fresh(items, cur)) == add_new(cur, items),
    decreases items.len(),
{
    if items.len() == 0 {
        assert(keep_fresh(items, cur) =~= Seq::<Seq<char>>::empty());
    } else {
        let rest = items.drop_last();
        let x = items.last();
        lemma_add_new_keep_fresh(cur, rest);
        if cur.contains(x) {
            assert(keep_fresh(items, cur) == keep_fresh(rest, cur));
            lemma_add_new_monotone(cur, rest, x);
            assert(add_new(cur, items) == add_new(cur, rest));
        } else {
            let kf = keep_fresh(rest, cur);
            assert(keep_fresh(items, cur) == kf.push(x));
            assert(kf.push(x).drop_last() =~= kf);
            assert(kf.push(x).last() == x);
            assert(add_new(cur, kf.push(x)) == (if add_new(cur, kf).contains(x) {
                add_new(cur, kf)
            } else {
                add_new(cur, kf).push(x)
            }));
        }
    }
}

/// `add_new` never removes: anything in the accumulated membership is still
/// there after more items are added.
pub proof fn lemma_add_new_monotone(cur: Seq<Seq<char>>, items: Seq<Seq<char>>, x: Seq<char>)
    requires
        cur.contains(x),
    ensures
        add_new(cur, items).contains(x),
    decreases items.len(),
{
    if items.len() > 0 {
        let prev = add_new(cur, items.drop_last());
        lemma_add_new_monotone(cur, items.drop_last(), x);
        if !prev.contains(items.last()) {
            let k = choose|k: int| 0 <= k < prev.len() && prev[k] == x;
            assert(prev.push(items.last())[k] == x);
        }
    }
}

/// Every item offered to `add_new` is a member afterwards.
pub proof fn lemma_add_new_contains_items(cur: Seq<Seq<char>>, items: Seq<Seq<char>>, j: int)
    requires
        0 <= j < items.len(),
    ensures
        add_new(cur, items).contains(items[j]),
    decreases items.len(),
{
    let prev = add_new(cur, items.drop_last());
    if j == items.len() - 1 {
        if prev.contains(items.last()) {
            let k = choose|k: int| 0 <= k < prev.len() && prev[k] == items.last();
            assert(add_new(cur, items)[k] == items[j]);
        } else {
            assert(prev.push(items.last())[prev.len() as int] == items[j]);
        }
    } else {
        lemma_add_new_contains_items(cur, items.drop_last(), j);
        assert(items.drop_last()[j] == items[j]);
        let k = choose|k: int| 0 <= k < prev.len() && prev[k] == items[j];
        if !prev.contains(items.last()) {
            assert(prev.push(items.last())[k] == items[j]);
        }
    }
}

/// Adding items that are all already members changes nothing.
proof fn lemma_add_new_absorbed(cur: Seq<Seq<char>>, items: Seq<Seq<char>>)
    requires
        forall|j: int| 0 <= j < items.len() ==> cur.contains(#[trigger] items[j]),
    ensures
        add_new(cur, items) == cur,
    decreases items.len(),
{
    if items.len() > 0 {
        assert(forall|j: int|
            0 <= j < items.drop_last().len() ==> cur.contains(#[trigger] items.drop_last()[j]));
        lemma_add_new_absorbed(cur, items.drop_last());
        assert(cur.contains(items.last()));
    }
}

/// Law: `Add` is de-duplicating. Adding the same batch of items a second
/// time is absorbed: the replayed membership is exactly what it was after
/// the first add.
pub proof fn lemma_add_idempotent(cur: Seq<Seq<char>>, items: Seq<Seq<char>>)
    ensures
        add_new(add_new(cur, items), items) == add_new(cur, items),
{
    let once = add_new(cur, items);
    assert forall|j: int| 0 <= j < items.len() implies once.contains(#[trigger] items[j]) by {
        lemma_add_new_contains_items(cur, items, j);
    }
    lemma_add_new_absorbed(once, items);
}

/// No two entries of the sequence are equal.
pub open spec fn distinct_seq(s: Seq<Seq<char>>) -> bool {
    forall|i: int, j: int| 0 <= i < j < s.len() ==> s[i] != s[j]
}

/// Adding keeps entries pairwise distinct: an item is only appended when it
/// is not yet a member.
proof fn lemma_add_new_distinct(acc: Seq<Seq<char>>, items: Seq<Seq<char>>)
    requires
        distinct_seq(acc),
    ensures
        distinct_seq(add_new(acc, items)),
    decreases items.len(),
{
    if items.len() > 0 {
        lemma_add_new_distinct(acc, items.drop_last());
        let prev = add_new(acc, items.drop_last());
        if !prev.contains(items.last()) {
            let r = prev.push(items.last());
            assert forall|i: int, j: int| 0 <= i < j < r.len() implies r[i] != r[j] by {
                if j < r.len() - 1 {
                    assert(prev[i] != prev[j]);
                } else {
                    assert(r[i] == prev[i]);
                    assert(prev.contains(prev[i]));
                }
            }
        }
    }
}

/// Law: a replayed membership never lists an item twice, whatever the log
/// holds — each item appears at most once, at its first surviving position.
pub proof fn lemma_replay_distinct(revs: Seq<RevOpView>)
    ensures
        distinct_seq(replay(revs)),
    decreases revs.len(),
{
    if revs.len() == 0 {
    } else {
        lemma_replay_distinct(revs.drop_last());
        match revs.last() {
            RevOpView::Add(items) => {
                lemma_add_new_distinct(replay(revs.drop_last()), items);
            },
            RevOpView::Del(items) => {
                lemma_del_all_distinct(replay(revs.drop_last()), items);
            },
        }
    }
}

/// Whatever `del_all` keeps was already there.
proof fn lemma_del_all_subset(acc: Seq<Seq<char>>, items: Seq<Seq<char>>, x: Seq<char>)
    requires
        del_all(acc, items).contains(x),
    ensures
        acc.contains(x),
    decreases acc.len(),
{
    if acc.len() > 0 {
        let prev = del_all(acc.drop_last(), items);
        let r = del_all(acc, items);
        let k = choose|k: int| 0 <= k < r.len() && r[k] == x;
        if !items.contains(acc.last()) && k == r.len() - 1 {
            assert(acc[acc.len() - 1] == x);
        } else {
            assert(prev.contains(x)) by {
                assert(prev[k] == x);
            }
            lemma_del_all_subset(acc.drop_last(), items, x);
            let k2 = choose|k2: int| 0 <= k2 < acc.drop_last().len() && acc.drop_last()[k2] == x;
            assert(acc[k2] == x);
        }
    }
}

/// Removal keeps entries pairwise distinct.
proof fn lemma_del_all_distinct(acc: Seq<Seq<char>>, items: Seq<Seq<char>>)
    requires
        distinct_seq(acc),
    ensures
        distinct_seq(del_all(acc, items)),
    decreases acc.len(),
{
    if acc.len() > 0 {
        assert(distinct_seq(acc.drop_last()));
        lemma_del_all_distinct(acc.drop_last(), items);
        let prev = del_all(acc.drop_last(), items);
        if !items.contains(acc.last()) {
            assert(!prev.contains(acc.last())) by {
                if prev.contains(acc.last()) {
                    lemma_del_all_subset(acc.drop_last(), items, acc.last());
                    let k = choose|k: int|
                        0 <= k < acc.drop_last().len() && acc.drop_last()[k] == acc.last();
                    assert(acc[k] == acc[acc.len() - 1]);
                }
            }
            let r = prev.push(acc.last());
            assert forall|i: int, j: int| 0 <= i < j < r.len() implies r[i] != r[j] by {
                if j < r.len() - 1 {
                    assert(prev[i] != prev[j]);
                } else {
                    assert(r[i] == prev[i]);
                    assert(prev.contains(prev[i]));
                }
            }
        }
    }
}

/// A tag index: the set of topics carrying the tag. Written last-value-wins
/// as one record; the topic list holds each topic once.
#[derive(Clone, Debug)]
pub struct Index {
    pub name: String,
    pub topics: Vec<String>,
}

impl Index {
    /// Well-formed: no topic is listed twice.
    pub open spec fn wf(&self) -> bool {
        distinct_seq(uids_view(self.topics@))
    }

    /// An index for a tag with no topics yet.
    pub fn new(name: String) -> (r: Index)
        ensures
            r.wf(),
            r.name@ == name@,
            r.topics@.len() == 0,
    {
        Index { name, topics: Vec::new() }
    }

    /// Whether the tag is on this topic.
    pub fn contains_topic(&self, topic: &str) -> (r: bool)
        ensures
            r == uids_view(self.topics@).contains(topic@),
    {
        let mut i: usize = 0;
        let n = self.topics.len();
        while i < n
            invariant
                i <= n,
                n == self.topics@.len(),
                forall|k: int| 0 <= k < i ==> uids_view(self.topics@)[k] != topic@,
            decreases n - i,
        {
            if crate::text::str_eq(self.topics[i].as_str(), topic) {
                assert(uids_view(self.topics@)[i as int] == topic@);
                return true;
            }
            i += 1;
        }
        assert(!uids_view(self.topics@).contains(topic@));
        false
    }

    /// Put the tag on a topic; listing it again changes nothing.
    pub fn add_topic(&mut self, topic: String)
        requires
            old(self).wf(),
        ensures
            final(self).wf(),
            final(self).name@ == old(self).name@,
            uids_view(final(self).topics@) == if uids_view(old(self).topics@).contains(topic@) {
                uids_view(old(self).topics@)
            } else {
                uids_view(old(self).topics@).push(topic@)
            },
    {
        if !self.contains_topic(topic.as_str()) {
            let ghost tview = topic@;
            let ghost t0 = uids_view(self.topics@);
            self.topics.push(topic);
            proof {
                assert(uids_view(final(self).topics@) =~= t0.push(tview));
                assert forall|i: int, j: int|
                    0 <= i < j < uids_view(final(self).topics@).len() implies uids_view(
                    final(self).topics@,
                )[i] != uids_view(final(self).topics@)[j] by {
                    if j == t0.len() {
                        assert(t0.contains(t0[i]));
                    } else {
                        assert(t0[i] != t0[j]);
                    }
                }
            }
        }
    }

    /// Take the tag off a topic; every listed occurrence goes.
    pub fn remove_topic(&mut self, topic: &str)
        requires
            old(self).wf(),
        ensures
            final(self).wf(),
            final(self).name@ == old(self).name@,
            uids_view(final(self).topics@) == del_all(
                uids_view(old(self).topics@),
                seq![topic@],
            ),
    {
        let ghost t0 = uids_view(self.topics@);
        let ghost items: Seq<Seq<char>> = seq![topic@];
        proof {
            assert(items =~= Seq::<Seq<char>>::empty().push(topic@));
            assert(items[0] == topic@);
        }
        let mut kept: Vec<String> = Vec::new();
        let mut j: usize = 0;
        let n = self.topics.len();
        proof {
            assert(uids_view(kept@) =~= Seq::<Seq<char>>::empty());
            assert(t0.take(0) =~= Seq::<Seq<char>>::empty());
        }
        while j < n
            invariant
                j <= n,
                n == self.topics@.len(),
                t0 == uids_view(self.topics@),
                items == seq![topic@],
                items.len() == 1 && items[0] == topic@,
                uids_view(kept@) == del_all(t0.take(j as int), items),
            decreases n - j,
        {
            proof {
                assert(t0.take(j + 1).drop_last() =~= t0.take(j as int));
                assert(t0.take(j + 1).last() == t0[j as int]);
            }
            if !crate::text::str_eq(self.topics[j].as_str(), topic) {
                proof {
                    assert(!items.contains(t0[j as int])) by {
                        assert(forall|k: int| 0 <= k < items.len() ==> items[k] == topic@);
                    }
                }
                let m = self.topics[j].clone();
                proof {
                    assert(uids_view(kept@.push(m)) =~= uids_view(kept@).push(m@));
                }
                kept.push(m);
            } else {
                proof {
                    assert(items[0] == topic@);
                    assert(items.contains(t0[j as int]));
                }
            }
            j += 1;
        }
        proof {
            assert(t0.take(n as int) =~= t0);
            lemma_del_all_distinct(t0, items);
        }
        self.topics = kept;
    }

    /// Whether no topic carries the tag any more; an empty index's record
    /// is deleted rather than rewritten.
    pub fn is_empty(&self) -> (r: bool)
        ensures
            r == (self.topics@.len() == 0),
    {
        self.topics.len() == 0
    }
}

/// Mathematical form of a tag index.
pub struct IndexView {
    pub name: Seq<char>,
    pub topics: Seq<Seq<char>>,
}

impl View for Index {
    type V = IndexView;

    open spec fn view(&self) -> IndexView {
        IndexView { name: self.name@, topics: uids_view(self.topics@) }
    }
}

/// The names of the indexes that list `topic`, in the order given.
pub open spec fn tags_of(ixs: Seq<IndexView>, topic: Seq<char>) -> Seq<Seq<char>>
    decreases ixs.len(),
{
    if ixs.len() == 0 {
        Seq::empty()
    } else {
        let prev = tags_of(ixs.drop_last(), topic);
        if ixs.last().topics.contains(topic) {
            prev.push(ixs.last().name)
        } else {
            prev
        }
    }
}

/// Search the given indexes for a topic: the tags on it are the names of
/// the indexes that list it.
pub fn tags_for_topic(indexes: &Vec<Index>, topic: &str) -> (r: Vec<String>)
    ensures
        uids_view(r@) == tags_of(indexes@.map_values(|ix: Index| ix@), topic@),
{
    let ghost ixsv = indexes@.map_values(|ix: Index| ix@);
    let mut r: Vec<String> = Vec::new();
    let n = indexes.len();
    proof {
        assert(uids_view(r@) =~= Seq::<Seq<char>>::empty());
        assert(ixsv.take(0) =~= Seq::<IndexView>::empty());
    }
    let mut i: usize = 0;
    while i < n
        invariant
            i <= n,
            n == indexes@.len(),
            ixsv == indexes@.map_values(|ix: Index| ix@),
            uids_view(r@) == tags_of(ixsv.take(i as int), topic@),
        decreases n - i,
    {
        proof {
            assert(ixsv.take(i + 1).drop_last() =~= ixsv.take(i as int));
            assert(ixsv.take(i + 1).last() == ixsv[i as int]);
            assert(ixsv[i as int] == indexes@[i as int]@);
        }
        if indexes[i].contains_topic(topic) {
            let name = indexes[i].name.clone();
            proof {
                assert(uids_view(r@.push(name)) =~= uids_view(r@).push(name@));
            }
            r.push(name);
        }
        i += 1;
    }
    proof {
        assert(ixsv.take(n as int) =~= ixsv);
    }
    r
}

/// The tag-add decision: read the index record if it exists, otherwise
/// create an empty one for the tag, and list the topic in it.
pub fn apply_add_tag(existing: Option<Index>, tag: &str, topic: String) -> (r: Index)
    requires
        existing matches Some(ix) ==> ix.wf(),
    ensures
        r.wf(),
        r.name@ == (match existing {
            Some(ix) => ix.name@,
            None => tag@,
        }),
        uids_view(r.topics@) == (match existing {
            Some(ix) => if uids_view(ix.topics@).contains(topic@) {
                uids_view(ix.topics@)
            } else {
                uids_view(ix.topics@).push(topic@)
            },
            None => Seq::<Seq<char>>::empty().push(topic@),
        }),
{
    let mut ix = match existing {
        Some(ix) => ix,
        None => Index::new(String::from_str(tag)),
    };
    proof {
        if existing is None {
            assert(uids_view(ix.topics@) =~= Seq::<Seq<char>>::empty());
        }
    }
    ix.add_topic(topic);
    ix
}

/// The tag-remove decision: a missing index record is `NotFound`; removing
/// the topic from the last index that lists it deletes the record
/// (`Ok(None)`), otherwise the updated record is written back.
pub fn apply_rm_tag(existing: Option<Index>, topic: &str) -> (r: Result<
    Option<Index>,
    crate::errors::ServerErr,
>)
    requires
        existing matches Some(ix) ==> ix.wf(),
    ensures
        r is Ok <==> existing is Some,
        r is Err ==> r->Err_0 == crate::errors::ServerErr::NotFound,
        r is Ok ==> (match r->Ok_0 {
            Some(ix) => {
                &&& ix.wf()
                &&& ix.name@ == existing->0.name@
                &&& uids_view(ix.topics@) == del_all(
                    uids_view(existing->0.topics@),
                    seq![topic@],
                )
                &&& uids_view(ix.topics@).len() > 0
            },
            None => del_all(uids_view(existing->0.topics@), seq![topic@]).len() == 0,
        }),
{
    match existing {
        Some(mut ix) => {
            ix.remove_topic(topic);
            if ix.is_empty() {
                Ok(None)
            } else {
                Ok(Some(ix))
            }
        },
        None => Err(crate::errors::ServerErr::NotFound),
    }
}

/// A topic addressed together with its owner's short id, serialized as
/// `topic.owner_id` so multiple owners may hold topics of one name.
#[derive(Clone, Debug)]
pub struct OwnedTopicId {
    pub topic: String,
    pub owner_id: String,
}

} // verus!
