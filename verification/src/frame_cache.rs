//! Frames that were decoded ahead, by their number, and the memory that they
//! take out of a common budget.
use vstd::prelude::*;

verus! {

/// The memory that frames decoded ahead may take, over all open videos.
pub struct PrefetchBudget {
    used: usize,
}

/// A share of the budget. It goes back when its frame is dropped.
#[derive(Debug, PartialEq, Eq)]
pub struct PrefetchReservation {
    bytes: usize,
}

impl PrefetchReservation {
    /// The bytes of the share.
    pub closed spec fn size(self) -> usize {
        self.bytes
    }

    /// Takes bytes out of the budget, unless more than `limit` would be in use.
    pub fn try_new(budget: &mut PrefetchBudget, bytes: usize, limit: usize) -> (res: Option<
        PrefetchReservation,
    >)
        ensures
            res is Some <==> old(budget).in_use() + bytes <= limit,
            match res {
                Some(r) => r.size() == bytes && final(budget).in_use() == old(budget).in_use()
                    + bytes,
                None => *final(budget) == *old(budget),
            },
    {
        match budget.used.checked_add(bytes) {
            None => None,
            Some(next) => {
                if next > limit {
                    None
                } else {
                    budget.used = next;
                    Some(PrefetchReservation { bytes })
                }
            },
        }
    }

    /// Gives the share back.
    pub fn release(self, budget: &mut PrefetchBudget)
        requires
            self.size() <= old(budget).in_use(),
        ensures
            final(budget).in_use() == old(budget).in_use() - self.size(),
    {
        budget.used = budget.used - self.bytes;
    }

    /// The bytes of the share.
    pub fn bytes(&self) -> (res: usize)
        ensures
            res == self.size(),
    {
        self.bytes
    }
}

impl PrefetchBudget {
    /// The bytes that are in use.
    pub closed spec fn in_use(self) -> usize {
        self.used
    }

    /// A budget of which nothing is in use.
    pub fn new() -> (res: PrefetchBudget)
        ensures
            res.in_use() == 0,
    {
        PrefetchBudget { used: 0 }
    }

    /// The bytes that are in use.
    pub fn used(&self) -> (res: usize)
        ensures
            res == self.in_use(),
    {
        self.used
    }
}

/// A decoded picture that is kept outside; the number stands for it.
#[derive(Debug, Clone, Copy, PartialEq, Eq, Structural)]
pub struct CachedVideoFrame {
    pub id: u64,
}

/// A frame that was decoded ahead: a picture still to be packed, or its bytes.
#[derive(Debug)]
pub enum PrefetchedFrame {
    Yuy2(CachedVideoFrame, Option<PrefetchReservation>),
    Bytes(Vec<u8>, Option<PrefetchReservation>),
}

/// The bytes of a share, where there is one.
pub open spec fn share(reservation: Option<PrefetchReservation>) -> nat {
    match reservation {
        Some(r) => r.size() as nat,
        None => 0,
    }
}

impl PrefetchedFrame {
    /// The bytes of the budget that the frame holds.
    pub open spec fn held(self) -> nat {
        match self {
            PrefetchedFrame::Yuy2(_, r) => share(r),
            PrefetchedFrame::Bytes(_, r) => share(r),
        }
    }

    /// The bytes of the budget that the frame holds.
    pub fn held_bytes(&self) -> (res: usize)
        ensures
            res == self.held(),
    {
        match self {
            PrefetchedFrame::Yuy2(_, Some(r)) => r.bytes(),
            PrefetchedFrame::Bytes(_, Some(r)) => r.bytes(),
            PrefetchedFrame::Yuy2(_, None) => 0,
            PrefetchedFrame::Bytes(_, None) => 0,
        }
    }

    /// Gives back what the frame holds of the budget.
    pub fn release(self, budget: &mut PrefetchBudget)
        requires
            self.held() <= old(budget).in_use(),
        ensures
            final(budget).in_use() == old(budget).in_use() - self.held(),
    {
        match self {
            PrefetchedFrame::Yuy2(_, Some(r)) => r.release(budget),
            PrefetchedFrame::Bytes(_, Some(r)) => r.release(budget),
            PrefetchedFrame::Yuy2(_, None) => {},
            PrefetchedFrame::Bytes(_, None) => {},
        }
    }
}

/// `dashmap::DashMap`, a map that threads can share. It is only held behind
/// exclusive references here.
#[verifier::external_type_specification]
#[verifier::external_body]
#[verifier::reject_recursive_types(K)]
#[verifier::reject_recursive_types(V)]
#[verifier::reject_recursive_types(S)]
pub struct ExDashMap<K, V, S>(dashmap::DashMap<K, V, S>);

/// What a map of frames holds.
pub uninterp spec fn frames_in(map: dashmap::DashMap<usize, PrefetchedFrame>) -> Map<
    usize,
    PrefetchedFrame,
>;

/// No frames at all.
pub open spec fn no_frames() -> Map<usize, PrefetchedFrame> {
    Map::empty()
}

/// `DashMap::new`: the map is empty.
#[verifier::external_body]
fn map_new() -> (res: dashmap::DashMap<usize, PrefetchedFrame>)
    ensures
        frames_in(res) == no_frames(),
{
    dashmap::DashMap::new()
}

/// `DashMap::insert`: the key maps to the value afterwards. What it mapped to
/// before comes back.
#[verifier::external_body]
fn map_insert(
    map: &mut dashmap::DashMap<usize, PrefetchedFrame>,
    key: usize,
    value: PrefetchedFrame,
) -> (res: Option<PrefetchedFrame>)
    ensures
        frames_in(*final(map)) == frames_in(*old(map)).insert(key, value),
        res == (if frames_in(*old(map)).dom().contains(key) {
            Some(frames_in(*old(map))[key])
        } else {
            None
        }),
{
    map.insert(key, value)
}

/// `DashMap::remove`: the key is gone afterwards. It comes back with what it
/// mapped to, if it was there.
#[verifier::external_body]
fn map_remove(map: &mut dashmap::DashMap<usize, PrefetchedFrame>, key: usize) -> (res: Option<
    (usize, PrefetchedFrame),
>)
    ensures
        frames_in(*final(map)) == frames_in(*old(map)).remove(key),
        res == (if frames_in(*old(map)).dom().contains(key) {
            Some((key, frames_in(*old(map))[key]))
        } else {
            None
        }),
{
    map.remove(&key)
}

/// `DashMap::contains_key`: whether the key is in the map.
#[verifier::external_body]
fn map_contains(map: &dashmap::DashMap<usize, PrefetchedFrame>, key: usize) -> (res: bool)
    ensures
        res == frames_in(*map).dom().contains(key),
{
    map.contains_key(&key)
}

/// `DashMap::clear`: the map is empty afterwards.
#[verifier::external_body]
fn map_clear(map: &mut dashmap::DashMap<usize, PrefetchedFrame>)
    ensures
        frames_in(*final(map)) == no_frames(),
{
    map.clear()
}

/// `DashMap::retain`: of the keys, those for which the function given to it
/// holds stay, with what they map to; here those behind a limit.
#[verifier::external_body]
fn map_retain_behind(map: &mut dashmap::DashMap<usize, PrefetchedFrame>, limit: usize)
    ensures
        frames_in(*final(map)) == kept_behind(frames_in(*old(map)), limit),
{
    map.retain(|key, _| lies_behind(*key, limit))
}

fn lies_behind(key: usize, limit: usize) -> (res: bool)
    ensures
        res == (key > limit),
{
    key > limit
}

/// The frames whose numbers lie behind a limit.
pub open spec fn kept_behind(frames: Map<usize, PrefetchedFrame>, limit: usize) -> Map<
    usize,
    PrefetchedFrame,
> {
    frames.restrict(Set::new(|key: usize| key > limit))
}

/// The bytes of the budget that some frames hold together.
pub open spec fn held_by(frames: Map<usize, PrefetchedFrame>) -> nat
    decreases frames.dom().len(),
    when frames.dom().finite()
{
    if frames.dom().len() == 0 {
        0
    } else {
        let key = frames.dom().choose();
        frames[key].held() + held_by(frames.remove(key))
    }
}

proof fn held_without(frames: Map<usize, PrefetchedFrame>, key: usize)
    requires
        frames.dom().finite(),
        frames.dom().contains(key),
    ensures
        held_by(frames) == frames[key].held() + held_by(frames.remove(key)),
    decreases frames.dom().len(),
{
    let first = frames.dom().choose();
    assert(frames.dom().len() > 0) by {
        if frames.dom().len() == 0 {
            assert(frames.dom() =~= Set::empty());
        }
    }
    assert(frames.dom().contains(first));
    if first != key {
        held_without(frames.remove(first), key);
        held_without(frames.remove(key), first);
        assert(frames.remove(first).remove(key) =~= frames.remove(key).remove(first));
    }
}

proof fn held_with(frames: Map<usize, PrefetchedFrame>, key: usize, frame: PrefetchedFrame)
    requires
        frames.dom().finite(),
    ensures
        held_by(frames.insert(key, frame)) == frame.held() + held_by(frames.remove(key)),
{
    held_without(frames.insert(key, frame), key);
    assert(frames.insert(key, frame).remove(key) =~= frames.remove(key));
}

/// Frames that were decoded ahead, by their number.
pub struct FrameCache {
    frames: dashmap::DashMap<usize, PrefetchedFrame>,
    reserved: usize,
}

impl View for FrameCache {
    type V = Map<usize, PrefetchedFrame>;

    closed spec fn view(&self) -> Map<usize, PrefetchedFrame> {
        frames_in(self.frames)
    }
}

impl FrameCache {
    /// The cache knows how much of the budget its frames hold.
    pub closed spec fn wf(self) -> bool {
        &&& self@.dom().finite()
        &&& self.reserved == held_by(self@)
    }

    /// A cache without frames.
    pub fn new() -> (res: FrameCache)
        ensures
            res.wf(),
            res@ == no_frames(),
    {
        FrameCache { frames: map_new(), reserved: 0 }
    }

    /// The bytes of the budget that the frames hold.
    pub fn reserved(&self) -> (res: usize)
        requires
            self.wf(),
        ensures
            res == held_by(self@),
    {
        self.reserved
    }

    /// Whether a frame is there.
    pub fn contains(&self, frame: usize) -> (res: bool)
        ensures
            res == self@.dom().contains(frame),
    {
        map_contains(&self.frames, frame)
    }

    /// Puts a frame in. One with the same number is dropped, and what it held
    /// of the budget goes back.
    pub fn insert(&mut self, frame: usize, data: PrefetchedFrame, budget: &mut PrefetchBudget)
        requires
            old(self).wf(),
            held_by(old(self)@) + data.held() <= old(budget).in_use(),
        ensures
            final(self).wf(),
            final(self)@ == old(self)@.insert(frame, data),
            final(budget).in_use() - held_by(final(self)@) == old(budget).in_use() - held_by(
                old(self)@,
            ) - data.held(),
            final(budget).in_use() == old(budget).in_use() - (if old(self)@.dom().contains(frame) {
                old(self)@[frame].held()
            } else {
                0
            }),
    {
        let more: usize = data.held_bytes();
        proof {
            held_with(self@, frame, data);
            if self@.dom().contains(frame) {
                held_without(self@, frame);
            } else {
                assert(self@.remove(frame) =~= self@);
            }
        }
        match map_insert(&mut self.frames, frame, data) {
            Some(displaced) => {
                let less: usize = displaced.held_bytes();
                displaced.release(budget);
                self.reserved = self.reserved - less + more;
            },
            None => {
                self.reserved = self.reserved + more;
            },
        }
    }

    /// Takes a frame out, with what it holds of the budget.
    pub fn remove(&mut self, frame: usize) -> (res: Option<PrefetchedFrame>)
        requires
            old(self).wf(),
        ensures
            final(self).wf(),
            final(self)@ == old(self)@.remove(frame),
            res == (if old(self)@.dom().contains(frame) {
                Some(old(self)@[frame])
            } else {
                None
            }),
            held_by(old(self)@) == held_by(final(self)@) + (match res {
                Some(data) => data.held(),
                None => 0,
            }),
    {
        proof {
            if self@.dom().contains(frame) {
                held_without(self@, frame);
            } else {
                assert(self@.remove(frame) =~= self@);
            }
        }
        match map_remove(&mut self.frames, frame) {
            Some((_key, data)) => {
                self.reserved = self.reserved - data.held_bytes();
                Some(data)
            },
            None => None,
        }
    }

    /// Drops all frames. What they held of the budget goes back.
    pub fn clear(&mut self, budget: &mut PrefetchBudget)
        requires
            old(self).wf(),
            held_by(old(self)@) <= old(budget).in_use(),
        ensures
            final(self).wf(),
            final(self)@ == no_frames(),
            final(budget).in_use() == old(budget).in_use() - held_by(old(self)@),
    {
        map_clear(&mut self.frames);
        PrefetchReservation { bytes: self.reserved }.release(budget);
        self.reserved = 0;
    }

    /// Drops the frames up to a number. None may hold a share of the budget.
    pub fn retain_behind(&mut self, limit: usize)
        requires
            old(self).wf(),
            held_by(old(self)@) == 0,
        ensures
            final(self).wf(),
            final(self)@ == kept_behind(old(self)@, limit),
            held_by(final(self)@) == 0,
    {
        proof {
            nothing_held_in_part(self@, Set::new(|key: usize| key > limit));
        }
        map_retain_behind(&mut self.frames, limit);
    }
}

proof fn nothing_held_in_part(frames: Map<usize, PrefetchedFrame>, keys: Set<usize>)
    requires
        frames.dom().finite(),
        held_by(frames) == 0,
    ensures
        frames.restrict(keys).dom().finite(),
        held_by(frames.restrict(keys)) == 0,
    decreases frames.dom().len(),
{
    let part = frames.restrict(keys);
    assert(part.dom() =~= frames.dom().intersect(keys));
    if frames.dom().len() == 0 {
        assert(frames.dom() =~= Set::empty());
        assert(part.dom() =~= Set::empty());
    } else {
        let key = frames.dom().choose();
        let rest = frames.remove(key);
        nothing_held_in_part(rest, keys);
        if keys.contains(key) {
            assert(part.remove(key) =~= rest.restrict(keys));
            held_without(part, key);
        } else {
            assert(part =~= rest.restrict(keys));
        }
    }
}

/// What frames hold together: nothing where there are none; a frame that is put in
/// adds what it holds, and one that is taken out takes away what it held.
pub proof fn frames_hold_their_shares(
    frames: Map<usize, PrefetchedFrame>,
    key: usize,
    frame: PrefetchedFrame,
)
    requires
        frames.dom().finite(),
        !frames.dom().contains(key),
    ensures
        held_by(no_frames()) == 0,
        held_by(frames.insert(key, frame)) == held_by(frames) + frame.held(),
        frames.insert(key, frame).remove(key) == frames,
        frame matches PrefetchedFrame::Yuy2(_, Some(r)) ==> frame.held() == r.size(),
        frame matches PrefetchedFrame::Bytes(_, Some(r)) ==> frame.held() == r.size(),
        frame matches PrefetchedFrame::Yuy2(_, None) ==> frame.held() == 0,
        frame matches PrefetchedFrame::Bytes(_, None) ==> frame.held() == 0,
{
    held_with(frames, key, frame);
    assert(frames.remove(key) =~= frames);
    assert(frames.insert(key, frame).remove(key) =~= frames);
    assert(no_frames().dom() =~= Set::empty());
}

/// The frames that are kept are those with higher numbers than the limit, as they
/// were.
pub proof fn frames_behind_are_kept(
    frames: Map<usize, PrefetchedFrame>,
    limit: usize,
    key: usize,
)
    ensures
        kept_behind(frames, limit).dom().contains(key) <==> frames.dom().contains(key) && limit
            < key,
        kept_behind(frames, limit).dom().contains(key) ==> kept_behind(frames, limit)[key]
            == frames[key],
{
}

} // verus!
