//! The recent turns of each channel, bounded per channel.
use crate::model::{contents_view, parts_view, Content, ContentV, DataV, PartData, PartV};
use crate::text::{join, joined, strings_view};
use dashmap::DashMap;
use std::collections::VecDeque;
use vstd::prelude::*;

verus! {

/// The most turns kept for one channel.
pub const MAX_HISTORY_PER_CHANNEL: usize = 10;

#[verifier::external_type_specification]
#[verifier::external_body]
#[verifier::reject_recursive_types(K)]
#[verifier::reject_recursive_types(V)]
#[verifier::reject_recursive_types(S)]
pub struct ExDashMap<K, V, S>(DashMap<K, V, S>);

/// The store of turns by channel id.
pub type ChannelStore = DashMap<u64, VecDeque<Content>>;

/// The turns that a channel store holds, by channel id.
pub uninterp spec fn channel_turns(m: ChannelStore) -> Map<u64, Seq<Content>>;

/// A store that holds no channel.
pub open spec fn empty_store() -> Map<u64, Seq<Content>> {
    Map::empty()
}

/// `DashMap::new`: an empty store.
#[verifier::external_body]
fn store_new() -> (r: ChannelStore)
    ensures
        channel_turns(r) == empty_store(),
{
    DashMap::new()
}

/// `DashMap::remove`: takes the turns of channel `k` out of the store.
#[verifier::external_body]
fn store_take(m: &mut ChannelStore, k: u64) -> (r: Option<VecDeque<Content>>)
    ensures
        channel_turns(*final(m)) == channel_turns(*old(m)).remove(k),
        match r {
            Some(q) => channel_turns(*old(m)).contains_key(k) && q@ == channel_turns(*old(m))[k],
            None => !channel_turns(*old(m)).contains_key(k),
        },
{
    m.remove(&k).map(|(_, q)| q)
}

/// `DashMap::insert`: puts `q` as the turns of channel `k`, in place of any earlier ones.
#[verifier::external_body]
fn store_put(m: &mut ChannelStore, k: u64, q: VecDeque<Content>)
    ensures
        channel_turns(*final(m)) == channel_turns(*old(m)).insert(k, q@),
{
    m.insert(k, q);
}

/// `q` with `c` appended, dropping the oldest turn where that makes more than
/// `MAX_HISTORY_PER_CHANNEL`.
pub open spec fn bounded_push(q: Seq<ContentV>, c: ContentV) -> Seq<ContentV> {
    let r = q.push(c);
    if r.len() > MAX_HISTORY_PER_CHANNEL {
        r.drop_first()
    } else {
        r
    }
}

/// The turns recorded for a channel (none where it has no record).
pub open spec fn turns_of(m: Map<u64, Seq<ContentV>>, channel_id: u64) -> Seq<ContentV> {
    if m.contains_key(channel_id) {
        m[channel_id]
    } else {
        Seq::empty()
    }
}

/// No channel holds more than `MAX_HISTORY_PER_CHANNEL` turns.
pub open spec fn bounded_turns(m: Map<u64, Seq<ContentV>>) -> bool {
    forall|k: u64| #[trigger] m.contains_key(k) ==> m[k].len() <= MAX_HISTORY_PER_CHANNEL
}

/// The turns of each channel that a store holds, by their views.
pub open spec fn store_view(m: ChannelStore) -> Map<u64, Seq<ContentV>> {
    channel_turns(m).map_values(|q: Seq<Content>| contents_view(q))
}

/// The recent turns of each channel.
pub struct ChannelCache {
    store: ChannelStore,
}

impl View for ChannelCache {
    type V = Map<u64, Seq<ContentV>>;

    closed spec fn view(&self) -> Map<u64, Seq<ContentV>> {
        store_view(self.store)
    }
}

impl ChannelCache {
    /// No channel holds more than `MAX_HISTORY_PER_CHANNEL` turns.
    #[verifier::type_invariant]
    spec fn wf(&self) -> bool {
        bounded_turns(self@)
    }

    /// An empty cache.
    pub fn new() -> (c: ChannelCache)
        ensures
            c@ == Map::<u64, Seq<ContentV>>::empty(),
            bounded_turns(c@),
    {
        let c = ChannelCache { store: store_new() };
        assert(c@ =~= Map::<u64, Seq<ContentV>>::empty());
        c
    }

    /// Records `content` as the newest turn of the channel, dropping its oldest turn where
    /// it would otherwise hold more than `MAX_HISTORY_PER_CHANNEL`.
    pub fn push(&mut self, channel_id: u64, content: Content)
        ensures
            bounded_turns(final(self)@),
            final(self)@ == old(self)@.insert(
                channel_id,
                bounded_push(turns_of(old(self)@, channel_id), content@),
            ),
    {
        proof {
            use_type_invariant(&*self);
        }
        let ghost old_view = self@;
        let mut store = store_new();
        std::mem::swap(&mut store, &mut self.store);
        assert(store_view(store) == old_view);
        let ghost m0 = channel_turns(store);
        let mut q = match store_take(&mut store, channel_id) {
            Some(q) => q,
            None => VecDeque::new(),
        };
        assert(contents_view(q@) == turns_of(old_view, channel_id));
        let ghost cv = content@;
        q.push_back(content);
        assert(contents_view(q@) =~= contents_view(q@.drop_last()).push(cv));
        if q.len() > MAX_HISTORY_PER_CHANNEL {
            let ghost before = q@;
            q.pop_front();
            assert(contents_view(q@) =~= contents_view(before).drop_first());
        }
        let ghost qv = q@;
        assert(contents_view(qv) == bounded_push(turns_of(old_view, channel_id), cv));
        store_put(&mut store, channel_id, q);
        assert(channel_turns(store) == m0.remove(channel_id).insert(channel_id, qv));
        assert(store_view(store) =~= old_view.insert(channel_id, contents_view(qv)));
        proof {
            lemma_push_bounded(old_view, channel_id, cv);
            assert forall|k: u64| #[trigger] store_view(store).contains_key(k) implies store_view(
                store,
            )[k].len() <= MAX_HISTORY_PER_CHANNEL by {
                if k != channel_id {
                    assert(old_view.contains_key(k));
                }
            }
        }
        self.store = store;
    }

    /// Copies of the recorded turns of the channel, oldest first (none where it has no
    /// record).
    pub fn get_history(&mut self, channel_id: u64) -> (r: Vec<Content>)
        ensures
            bounded_turns(final(self)@),
            final(self)@ == old(self)@,
            contents_view(r@) == turns_of(old(self)@, channel_id),
    {
        proof {
            use_type_invariant(&*self);
        }
        let ghost old_view = self@;
        let mut store = store_new();
        std::mem::swap(&mut store, &mut self.store);
        assert(store_view(store) == old_view);
        let ghost m0 = channel_turns(store);
        let out = match store_take(&mut store, channel_id) {
            None => {
                assert(store_view(store) =~= old_view);
                Vec::new()
            },
            Some(q) => {
                let mut out: Vec<Content> = Vec::new();
                let mut i: usize = 0;
                while i < q.len()
                    invariant
                        i <= q@.len(),
                        contents_view(out@) == contents_view(q@.subrange(0, i as int)),
                    decreases q@.len() - i,
                {
                    let c = q[i].duplicate();
                    let ghost before = out@;
                    out.push(c);
                    assert(contents_view(q@.subrange(0, i + 1)) =~= contents_view(
                        q@.subrange(0, i as int),
                    ).push(q@[i as int]@));
                    assert(contents_view(out@) =~= contents_view(before).push(q@[i as int]@));
                    i = i + 1;
                }
                assert(q@.subrange(0, i as int) =~= q@);
                let ghost qv = q@;
                let ghost m1 = channel_turns(store);
                store_put(&mut store, channel_id, q);
                assert(channel_turns(store) =~= m1.insert(channel_id, qv));
                assert(store_view(store) =~= old_view);
                out
            },
        };
        self.store = store;
        out
    }
}

/// A channel cache never holds more than `MAX_HISTORY_PER_CHANNEL` turns for a channel,
/// however many are pushed; and after a push the newest turn is the one pushed.
pub proof fn lemma_push_bounded(m: Map<u64, Seq<ContentV>>, channel_id: u64, c: ContentV)
    requires
        turns_of(m, channel_id).len() <= MAX_HISTORY_PER_CHANNEL,
    ensures
        bounded_push(turns_of(m, channel_id), c).len() <= MAX_HISTORY_PER_CHANNEL,
        bounded_push(turns_of(m, channel_id), c).last() == c,
        bounded_push(turns_of(m, channel_id), c).len() == if turns_of(m, channel_id).len()
            < MAX_HISTORY_PER_CHANNEL {
            turns_of(m, channel_id).len() + 1
        } else {
            MAX_HISTORY_PER_CHANNEL as nat
        },
{
}

/// What a read gives back after a push: the channel pushed to reads as the turns it held
/// before (without the oldest where it was full) followed by the pushed turn, and every
/// other channel reads as before.
pub proof fn lemma_push_then_read(
    m: Map<u64, Seq<ContentV>>,
    channel_id: u64,
    other: u64,
    c: ContentV,
)
    requires
        turns_of(m, channel_id).len() <= MAX_HISTORY_PER_CHANNEL,
    ensures
        ({
            let before = turns_of(m, channel_id);
            let after = m.insert(channel_id, bounded_push(before, c));
            &&& turns_of(after, channel_id) == (if before.len() < MAX_HISTORY_PER_CHANNEL {
                before
            } else {
                before.drop_first()
            }).push(c)
            &&& other != channel_id ==> turns_of(after, other) == turns_of(m, other)
        }),
{
    let before = turns_of(m, channel_id);
    if before.len() >= MAX_HISTORY_PER_CHANNEL {
        assert(before.push(c).drop_first() =~= before.drop_first().push(c));
    }
}

/// The cache's view after the pushes `(channel, turn)`, in order, starting from `m`: each
/// push as `ChannelCache::push` makes it.
pub open spec fn after_pushes(
    m: Map<u64, Seq<ContentV>>,
    pushes: Seq<(u64, ContentV)>,
) -> Map<u64, Seq<ContentV>>
    decreases pushes.len(),
{
    if pushes.len() == 0 {
        m
    } else {
        let prev = after_pushes(m, pushes.drop_last());
        let ch = pushes.last().0;
        prev.insert(ch, bounded_push(turns_of(prev, ch), pushes.last().1))
    }
}

/// The turns pushed to `channel_id`, in order.
pub open spec fn pushed_to(pushes: Seq<(u64, ContentV)>, channel_id: u64) -> Seq<ContentV>
    decreases pushes.len(),
{
    if pushes.len() == 0 {
        Seq::empty()
    } else {
        let rest = pushed_to(pushes.drop_last(), channel_id);
        if pushes.last().0 == channel_id {
            rest.push(pushes.last().1)
        } else {
            rest
        }
    }
}

/// The newest `MAX_HISTORY_PER_CHANNEL` of the turns (all of them where there are fewer),
/// oldest first.
pub open spec fn newest_turns(xs: Seq<ContentV>) -> Seq<ContentV> {
    if xs.len() <= MAX_HISTORY_PER_CHANNEL {
        xs
    } else {
        xs.subrange(xs.len() - MAX_HISTORY_PER_CHANNEL, xs.len() as int)
    }
}

/// From an empty cache, after any run of pushes, a channel reads as the newest
/// `MAX_HISTORY_PER_CHANNEL` turns pushed to it, oldest first; a channel never pushed to
/// reads as no turn.
pub proof fn lemma_history_after_pushes(pushes: Seq<(u64, ContentV)>, channel_id: u64)
    ensures
        turns_of(after_pushes(Map::empty(), pushes), channel_id) == newest_turns(
            pushed_to(pushes, channel_id),
        ),
    decreases pushes.len(),
{
    if pushes.len() > 0 {
        let pre = pushes.drop_last();
        lemma_history_after_pushes(pre, channel_id);
        let prev = after_pushes(Map::empty(), pre);
        let (ch, c) = pushes.last();
        if ch == channel_id {
            let xs = pushed_to(pre, channel_id);
            let ys = xs.push(c);
            if xs.len() >= MAX_HISTORY_PER_CHANNEL {
                assert(newest_turns(xs).push(c).drop_first() =~= newest_turns(ys));
            } else {
                assert(newest_turns(xs).push(c) =~= newest_turns(ys));
            }
        }
    } else {
        assert(newest_turns(Seq::<ContentV>::empty()) =~= Seq::<ContentV>::empty());
    }
}

/// A turn as scripts in the sandbox see it: who spoke, and the text said.
pub struct CachedMessage {
    pub role: String,
    pub content: String,
}

/// The texts of the text parts, in order.
pub open spec fn part_texts(parts: Seq<PartV>) -> Seq<Seq<char>>
    decreases parts.len(),
{
    if parts.len() == 0 {
        Seq::empty()
    } else {
        let rest = part_texts(parts.drop_last());
        match parts.last() {
            Some(DataV::Text(t)) => rest.push(t),
            _ => rest,
        }
    }
}

/// How a turn is shown to scripts: its role, and its texts joined by newlines.
pub open spec fn cached_view(c: ContentV) -> (Seq<char>, Seq<char>) {
    (c.role, joined(part_texts(c.parts), "\n"@))
}

/// The last `limit` turns (all of them where there are fewer), oldest first.
pub open spec fn last_turns(turns: Seq<ContentV>, limit: nat) -> Seq<ContentV> {
    if turns.len() <= limit {
        turns
    } else {
        turns.subrange(turns.len() - limit, turns.len() as int)
    }
}

/// The views of cached messages.
pub open spec fn cached_messages_view(m: Seq<CachedMessage>) -> Seq<(Seq<char>, Seq<char>)> {
    m.map_values(|x: CachedMessage| (x.role@, x.content@))
}

fn cached_message(c: &Content) -> (r: CachedMessage)
    ensures
        (r.role@, r.content@) == cached_view(c@),
{
    let ghost pv = parts_view(c.parts@);
    let mut texts: Vec<String> = Vec::new();
    let mut k: usize = 0;
    while k < c.parts.len()
        invariant
            pv == parts_view(c.parts@),
            k <= c.parts@.len(),
            strings_view(texts@) == part_texts(pv.subrange(0, k as int)),
        decreases c.parts@.len() - k,
    {
        assert(pv.subrange(0, k + 1).drop_last() =~= pv.subrange(0, k as int));
        assert(pv.subrange(0, k + 1).last() == c.parts@[k as int]@);
        match &c.parts[k].data {
            Some(PartData::Text(t)) => {
                let ghost before = strings_view(texts@);
                texts.push(t.clone());
                assert(strings_view(texts@) =~= before.push(t@));
            },
            _ => {},
        }
        k = k + 1;
    }
    assert(pv.subrange(0, k as int) =~= pv);
    CachedMessage { role: c.role.clone(), content: join(&texts, "\n") }
}

impl ChannelCache {
    /// The last `limit` turns of the channel as scripts see them: each with its role and
    /// its texts joined by newlines.
    pub fn to_cached_messages(&mut self, channel_id: u64, limit: usize) -> (r: Vec<CachedMessage>)
        ensures
            bounded_turns(final(self)@),
            final(self)@ == old(self)@,
            cached_messages_view(r@) == last_turns(turns_of(old(self)@, channel_id), limit as nat).map_values(
                |c: ContentV| cached_view(c),
            ),
    {
        proof {
            use_type_invariant(&*self);
        }
        let h = self.get_history(channel_id);
        let ghost hv = contents_view(h@);
        let start: usize = if h.len() > limit {
            h.len() - limit
        } else {
            0
        };
        let ghost want = last_turns(hv, limit as nat);
        assert(want =~= hv.subrange(start as int, hv.len() as int));
        let mut out: Vec<CachedMessage> = Vec::new();
        let mut i: usize = start;
        while i < h.len()
            invariant
                hv == contents_view(h@),
                start <= i <= h@.len(),
                want == hv.subrange(start as int, hv.len() as int),
                cached_messages_view(out@) == hv.subrange(start as int, i as int).map_values(
                    |c: ContentV| cached_view(c),
                ),
            decreases h@.len() - i,
        {
            let m = cached_message(&h[i]);
            let ghost before = cached_messages_view(out@);
            let ghost mv = (m.role@, m.content@);
            out.push(m);
            assert(cached_messages_view(out@) =~= before.push(mv));
            assert(hv.subrange(start as int, i + 1) =~= hv.subrange(start as int, i as int).push(
                hv[i as int],
            ));
            assert(hv.subrange(start as int, i + 1).map_values(|c: ContentV| cached_view(c))
                =~= hv.subrange(start as int, i as int).map_values(|c: ContentV| cached_view(c)).push(
                cached_view(hv[i as int]),
            ));
            i = i + 1;
        }
        out
    }
}

} // verus!
