//! Other players: buffered movement and their colours.
//!
//! Times are nanoseconds since the start of the program.

use crate::protocol::{ClientId, PlayerSave};
use std::collections::HashMap;
use std::collections::VecDeque;
use vstd::prelude::*;

verus! {

/// How far rendering lags behind what arrives: 150 ms.
pub const INTERP_DELAY_NANOS: i64 = 150_000_000;

/// A longer gap than this, one second, is jumped rather than crossed.
pub const SNAP_GAP_NANOS: i64 = 1_000_000_000;

/// Samples older than this, five seconds, are forgotten.
pub const SAMPLE_RETENTION_NANOS: i64 = 5_000_000_000;

/// The recent movement of one player.
#[derive(Debug)]
pub struct InterpBuffer {
    samples: VecDeque<(i64, PlayerSave)>,
}

/// Where to show a player.
#[derive(Clone, Copy, Debug, PartialEq, Eq, Structural)]
pub enum Pose {
    /// Exactly in this state.
    At(PlayerSave),
    /// On the way from one state to another, `elapsed` of `span` along it.
    Between { from: PlayerSave, to: PlayerSave, elapsed: i64, span: i64 },
}

/// Forgets samples from the front that are too old at time `t`, all but the
/// newest.
pub open spec fn pruned(s: Seq<(i64, PlayerSave)>, t: int) -> Seq<(i64, PlayerSave)>
    decreases s.len(),
{
    if s.len() > 1 && t - s[0].0 > SAMPLE_RETENTION_NANOS {
        pruned(s.drop_first(), t)
    } else {
        s
    }
}

/// The samples after another one arrives. One that is not newer than the
/// last is rejected; after a long gap the old ones are dropped.
pub open spec fn pushed(
    s: Seq<(i64, PlayerSave)>,
    t: i64,
    state: PlayerSave,
) -> Seq<(i64, PlayerSave)> {
    if s.len() > 0 && t <= s.last().0 {
        s
    } else if s.len() > 0 && t - s.last().0 > SNAP_GAP_NANOS {
        seq![(t, state)]
    } else {
        pruned(s.push((t, state)), t as int)
    }
}

/// Whether the times of the samples ascend strictly.
pub open spec fn ascending(s: Seq<(i64, PlayerSave)>) -> bool {
    forall|i: int, j: int| 0 <= i < j < s.len() ==> (#[trigger] s[i]).0 < (#[trigger] s[j]).0
}

/// Whether a time lies between sample `i` and the next.
pub open spec fn brackets(s: Seq<(i64, PlayerSave)>, t: i64, i: int) -> bool {
    0 <= i < s.len() - 1 && s[i].0 < t <= s[i + 1].0
}

/// The way from sample `i` to the next, at a time.
pub open spec fn way(s: Seq<(i64, PlayerSave)>, t: i64, i: int) -> Pose {
    Pose::Between {
        from: s[i].1,
        to: s[i + 1].1,
        elapsed: (t - s[i].0) as i64,
        span: (s[i + 1].0 - s[i].0) as i64,
    }
}

/// What the samples show at a time: the oldest before it, the newest after
/// it, and in between the way between the two around it.
pub open spec fn shows(s: Seq<(i64, PlayerSave)>, t: i64, pose: Option<Pose>) -> bool {
    if s.len() == 0 {
        pose is None
    } else if t <= s[0].0 {
        pose == Some(Pose::At(s[0].1))
    } else if t >= s.last().0 {
        pose == Some(Pose::At(s.last().1))
    } else {
        exists|i: int| #[trigger] brackets(s, t, i) && pose == Some(way(s, t, i))
    }
}

proof fn lemma_pruned(s: Seq<(i64, PlayerSave)>, t: int)
    requires
        ascending(s),
        s.len() > 0,
    ensures
        ascending(pruned(s, t)),
        0 < pruned(s, t).len() <= s.len(),
        pruned(s, t).last() == s.last(),
        s.last().0 == t ==> forall|i: int|
            0 <= i < pruned(s, t).len() ==> t - (#[trigger] pruned(s, t)[i]).0 <= SAMPLE_RETENTION_NANOS,
    decreases s.len(),
{
    if s.len() > 1 && t - s[0].0 > SAMPLE_RETENTION_NANOS {
        assert(ascending(s.drop_first()));
        lemma_pruned(s.drop_first(), t);
    } else if s.last().0 == t {
        assert forall|i: int| 0 <= i < s.len() implies t - (#[trigger] s[i]).0
            <= SAMPLE_RETENTION_NANOS by {
            if i > 0 {
                assert(s[0].0 < s[i].0);
            }
        }
    }
}

/// However samples arrive, their times ascend, and none that is kept after
/// an accepted one is older than five seconds before it.
pub proof fn law_samples_ascend(s: Seq<(i64, PlayerSave)>, t: i64, state: PlayerSave)
    requires
        ascending(s),
    ensures
        ascending(pushed(s, t, state)),
        pushed(s, t, state).len() > 0,
        pushed(s, t, state) != s ==> {
            &&& pushed(s, t, state).last() == (t, state)
            &&& forall|i: int|
                0 <= i < pushed(s, t, state).len() ==> t - (#[trigger] pushed(s, t, state)[i]).0
                    <= SAMPLE_RETENTION_NANOS
        },
{
    if s.len() > 0 && t <= s.last().0 {
    } else if s.len() > 0 && t - s.last().0 > SNAP_GAP_NANOS {
    } else {
        let longer = s.push((t, state));
        assert(ascending(longer)) by {
            assert forall|i: int, j: int| 0 <= i < j < longer.len() implies (#[trigger] longer[i]).0
                < (#[trigger] longer[j]).0 by {
                if j == s.len() && i < s.len() - 1 {
                    assert(s[i].0 < s[s.len() - 1].0);
                }
            }
        }
        lemma_pruned(longer, t as int);
    }
}

/// The samples show exactly one pose at a time, and it is never beyond the
/// samples: a way between two of them is never overshot.
pub proof fn law_no_extrapolation(s: Seq<(i64, PlayerSave)>, t: i64, a: Option<Pose>, b: Option<Pose>)
    requires
        ascending(s),
        shows(s, t, a),
        shows(s, t, b),
        forall|i: int| 0 <= i < s.len() ==> -0x4000_0000_0000_0000 < (#[trigger] s[i]).0 < 0x4000_0000_0000_0000,
    ensures
        a == b,
        a matches Some(Pose::Between { elapsed, span, .. }) ==> 0 < elapsed <= span,
{
    if s.len() > 0 && s[0].0 < t < s.last().0 {
        let i = choose|i: int| #[trigger] brackets(s, t, i) && a == Some(way(s, t, i));
        let j = choose|j: int| #[trigger] brackets(s, t, j) && b == Some(way(s, t, j));
        if i < j {
            assert(i + 1 == j || s[i + 1].0 < s[j].0);
        } else if j < i {
            assert(j + 1 == i || s[j + 1].0 < s[i].0);
        }
        assert(-0x4000_0000_0000_0000 < s[i].0 && s[i + 1].0 < 0x4000_0000_0000_0000);
    }
}

/// A sample that follows the last one within a second drops nothing but what
/// is more than five seconds older: the samples from some place on stay as
/// they are, in order, with the new one behind them, and what is dropped
/// before that place is too old. A sample that is not newer than the last is
/// not taken up, and one that comes more than a second later stands alone.
pub proof fn law_recent_samples_are_kept(s: Seq<(i64, PlayerSave)>, t: i64, state: PlayerSave)
    requires
        ascending(s),
    ensures
        ({
            let after = pushed(s, t, state);
            if s.len() == 0 || t - s[s.len() - 1].0 > 1_000_000_000 {
                after.len() == 1 && after[0] == (t, state)
            } else if t <= s[s.len() - 1].0 {
                after == s
            } else {
                exists|k: int|
                    {
                        &&& 0 <= k <= s.len()
                        &&& after == #[trigger] s.skip(k).push((t, state))
                        &&& forall|i: int| 0 <= i < k ==> t - (#[trigger] s[i]).0 > 5_000_000_000
                        &&& forall|i: int|
                            k <= i < s.len() ==> t - (#[trigger] s[i]).0 <= 5_000_000_000
                    }
            }
        }),
{
    if s.len() == 0 {
        assert(s.push((t, state)).len() == 1);
    } else if s[s.len() - 1].0 < t && t - s[s.len() - 1].0 <= 1_000_000_000 {
        lemma_kept_part(s, t, state);
    }
}

proof fn lemma_kept_part(s: Seq<(i64, PlayerSave)>, t: i64, state: PlayerSave)
    requires
        ascending(s),
    ensures
        exists|k: int|
            {
                &&& 0 <= k <= s.len()
                &&& pruned(s.push((t, state)), t as int) == #[trigger] s.skip(k).push((t, state))
                &&& forall|i: int| 0 <= i < k ==> t - (#[trigger] s[i]).0 > 5_000_000_000
                &&& forall|i: int| k <= i < s.len() ==> t - (#[trigger] s[i]).0 <= 5_000_000_000
            },
    decreases s.len(),
{
    let all = s.push((t, state));
    if s.len() > 0 && t - s[0].0 > 5_000_000_000 {
        let rest = s.drop_first();
        assert(ascending(rest));
        lemma_kept_part(rest, t, state);
        assert(all.drop_first() =~= rest.push((t, state)));
        let k = choose|k: int|
            {
                &&& 0 <= k <= rest.len()
                &&& pruned(rest.push((t, state)), t as int) == #[trigger] rest.skip(k).push(
                    (t, state),
                )
                &&& forall|i: int| 0 <= i < k ==> t - (#[trigger] rest[i]).0 > 5_000_000_000
                &&& forall|i: int|
                    k <= i < rest.len() ==> t - (#[trigger] rest[i]).0 <= 5_000_000_000
            };
        assert(s.skip(k + 1).push((t, state)) =~= rest.skip(k).push((t, state)));
        assert forall|i: int| 0 <= i < k + 1 implies t - (#[trigger] s[i]).0 > 5_000_000_000 by {
            if i > 0 {
                assert(rest[i - 1] == s[i]);
            }
        }
        assert forall|i: int| k + 1 <= i < s.len() implies t - (#[trigger] s[i]).0 <= 5_000_000_000 by {
            assert(rest[i - 1] == s[i]);
        }
    } else {
        assert(s.skip(0).push((t, state)) =~= all);
        assert forall|i: int| 0 <= i < s.len() implies t - (#[trigger] s[i]).0 <= 5_000_000_000 by {
            if i > 0 {
                assert(s[0].0 < s[i].0);
            }
        }
    }
}

/// A player is shown where the samples say: before the oldest and behind the
/// newest as these are, between two neighbouring ones on the way from the one
/// to the other, as far along as the time is, and at the very time of a later
/// one at the end of the way to it.
pub proof fn law_poses_follow_the_samples(
    s: Seq<(i64, PlayerSave)>,
    t: i64,
    pose: Option<Pose>,
    i: int,
)
    requires
        ascending(s),
        shows(s, t, pose),
        forall|n: int|
            0 <= n < s.len() ==> -0x4000_0000_0000_0000 < (#[trigger] s[n]).0 < 0x4000_0000_0000_0000,
        0 <= i < s.len(),
    ensures
        t <= s[0].0 ==> pose == Some(Pose::At(s[0].1)),
        t >= s[s.len() - 1].0 && s[0].0 < t ==> pose == Some(Pose::At(s[s.len() - 1].1)),
        i + 1 < s.len() && s[i].0 < t <= s[i + 1].0 && t < s[s.len() - 1].0 ==> {
            &&& pose matches Some(Pose::Between { from, to, elapsed, span })
            &&& from == s[i].1 && to == s[i + 1].1
            &&& elapsed == t - s[i].0 && span == s[i + 1].0 - s[i].0
        },
{
    if i + 1 < s.len() && s[i].0 < t <= s[i + 1].0 && t < s[s.len() - 1].0 {
        assert(s[0].0 <= s[i].0) by {
            if i > 0 {
                assert(s[0].0 < s[i].0);
            }
        }
        assert(brackets(s, t, i));
        let j = choose|j: int| #[trigger] brackets(s, t, j) && pose == Some(way(s, t, j));
        if i < j {
            assert(i + 1 == j || s[i + 1].0 < s[j].0);
        } else if j < i {
            assert(j + 1 == i || s[j + 1].0 < s[i].0);
        }
        assert(-0x4000_0000_0000_0000 < s[i].0 && s[i + 1].0 < 0x4000_0000_0000_0000);
    }
}

impl View for InterpBuffer {
    type V = Seq<(i64, PlayerSave)>;

    closed spec fn view(&self) -> Seq<(i64, PlayerSave)> {
        self.samples@
    }
}

/// Times that the buffer works with: about 146 years either way.
pub open spec fn time_ok(t: i64) -> bool {
    -0x4000_0000_0000_0000 < t < 0x4000_0000_0000_0000
}

impl InterpBuffer {
    /// Whether the samples ascend and their times are in range.
    pub open spec fn wf(self) -> bool {
        &&& ascending(self@)
        &&& forall|i: int| 0 <= i < self@.len() ==> time_ok((#[trigger] self@[i]).0)
    }

    /// An empty buffer.
    pub fn new() -> (b: InterpBuffer)
        ensures
            b.wf(),
            b@ == Seq::<(i64, PlayerSave)>::empty(),
    {
        InterpBuffer { samples: VecDeque::new() }
    }

    /// Number of samples held.
    pub fn len(&self) -> (n: usize)
        ensures
            n == self@.len(),
    {
        self.samples.len()
    }

    /// Takes up a sample that arrived at time `t`.
    pub fn push(&mut self, t: i64, state: PlayerSave)
        requires
            old(self).wf(),
            time_ok(t),
        ensures
            final(self).wf(),
            final(self)@ == pushed(old(self)@, t, state),
    {
        let ghost before = self.samples@;
        proof {
            law_samples_ascend(before, t, state);
        }
        let n: usize = self.samples.len();
        if n > 0 {
            let last: i64 = self.samples[n - 1].0;
            assert(time_ok(self@[n - 1].0));
            if t <= last {
                return ;
            }
            if t - last > SNAP_GAP_NANOS {
                self.samples.clear();
                self.samples.push_back((t, state));
                assert(self.samples@ =~= seq![(t, state)]);
                return ;
            }
        }
        self.samples.push_back((t, state));
        let ghost longer = self.samples@;
        assert(longer =~= before.push((t, state)));
        assert forall|i: int| 0 <= i < longer.len() implies time_ok((#[trigger] longer[i]).0) by {
            if i < before.len() {
                assert(time_ok(old(self)@[i].0));
            }
        }
        let mut done = false;
        while !done
            invariant
                time_ok(t),
                self.samples@.len() > 0,
                forall|i: int| 0 <= i < self.samples@.len() ==> time_ok((#[trigger] self.samples@[i]).0),
                pruned(longer, t as int) == pruned(self.samples@, t as int),
                done ==> pruned(self.samples@, t as int) == self.samples@,
            decreases self.samples@.len(), if done { 0int } else { 1int },
        {
            let oldest: i64 = self.samples[0].0;
            assert(time_ok(self.samples@[0].0));
            if self.samples.len() > 1 && t - oldest > SAMPLE_RETENTION_NANOS {
                let ghost now = self.samples@;
                self.samples.pop_front();
                assert(self.samples@ =~= now.drop_first());
            } else {
                done = true;
            }
        }
    }

    /// What the buffer shows at a time.
    pub fn sample(&self, t: i64) -> (pose: Option<Pose>)
        requires
            self.wf(),
            time_ok(t),
        ensures
            shows(self@, t, pose),
    {
        let n: usize = self.samples.len();
        if n == 0 {
            return None;
        }
        let front = self.samples[0];
        if t <= front.0 {
            return Some(Pose::At(front.1));
        }
        let back = self.samples[n - 1];
        if t >= back.0 {
            return Some(Pose::At(back.1));
        }
        let mut i: usize = 0;
        while t > self.samples[i + 1].0
            invariant
                self.wf(),
                n == self.samples@.len(),
                i + 1 < n,
                self.samples@[i as int].0 < t,
                t < self.samples@[n - 1].0,
            decreases n - i,
        {
            i += 1;
        }
        let from = self.samples[i];
        let to = self.samples[i + 1];
        assert(time_ok(self@[i as int].0) && time_ok(self@[i + 1].0));
        assert(brackets(self@, t, i as int));
        Some(Pose::Between { from: from.1, to: to.1, elapsed: t - from.0, span: to.0 - from.0 })
    }
}

/// A hue from 0 to 359, scattered so that neighbouring ids differ.
pub open spec fn hue(id: u64) -> u64 {
    let a = id.wrapping_add(0x9E37_79B9_7F4A_7C15);
    let b = (a ^ (a >> 30)).wrapping_mul(0xBF58_476D_1CE4_E5B9);
    let c = (b ^ (b >> 27)).wrapping_mul(0x94D0_49BB_1331_11EB);
    let d = c ^ (c >> 31);
    (d % 360) as u64
}

/// The hue of a client's avatar, in degrees.
pub fn hue_for_id(id: ClientId) -> (degrees: u64)
    ensures
        degrees == hue(id),
        degrees < 360,
{
    let a: u64 = id.wrapping_add(0x9E37_79B9_7F4A_7C15);
    let b: u64 = (a ^ (a >> 30)).wrapping_mul(0xBF58_476D_1CE4_E5B9);
    let c: u64 = (b ^ (b >> 27)).wrapping_mul(0x94D0_49BB_1331_11EB);
    let d: u64 = c ^ (c >> 31);
    d % 360
}

/// The movement of all visible players.
#[derive(Debug)]
pub struct RemotePlayers {
    buffers: HashMap<ClientId, InterpBuffer>,
}

impl View for RemotePlayers {
    type V = Map<ClientId, Seq<(i64, PlayerSave)>>;

    closed spec fn view(&self) -> Map<ClientId, Seq<(i64, PlayerSave)>> {
        self.buffers@.map_values(|b: InterpBuffer| b@)
    }
}

impl RemotePlayers {
    /// Whether the buffers of all players are well-formed.
    pub closed spec fn wf(self) -> bool {
        forall|id: ClientId| self.buffers@.contains_key(id) ==> (#[trigger] self.buffers@[id]).wf()
    }

    /// Nobody.
    pub fn new() -> (players: RemotePlayers)
        ensures
            players.wf(),
            players@ == Map::<ClientId, Seq<(i64, PlayerSave)>>::empty(),
    {
        let players = RemotePlayers { buffers: HashMap::new() };
        assert(players@ =~= Map::<ClientId, Seq<(i64, PlayerSave)>>::empty());
        players
    }

    /// Whether a player is visible.
    pub fn contains(&self, id: ClientId) -> (b: bool)
        ensures
            b == self@.contains_key(id),
    {
        self.buffers.contains_key(&id)
    }

    /// A player became visible. Tells whether one with the same id was, who
    /// is replaced.
    pub fn join(&mut self, now: i64, id: ClientId, state: PlayerSave) -> (replaced: bool)
        requires
            old(self).wf(),
            time_ok(now),
        ensures
            final(self).wf(),
            final(self)@ == old(self)@.insert(id, seq![(now, state)]),
            replaced == old(self)@.contains_key(id),
    {
        let mut buffer = InterpBuffer::new();
        buffer.push(now, state);
        proof {
            assert(Seq::<(i64, PlayerSave)>::empty().push((now, state)) =~= seq![(now, state)]);
        }
        let previous = self.buffers.insert(id, buffer);
        assert(self@ =~= old(self)@.insert(id, seq![(now, state)]));
        previous.is_some()
    }

    /// A player moved. One who is not visible is ignored.
    pub fn push_sample(&mut self, now: i64, id: ClientId, state: PlayerSave)
        requires
            old(self).wf(),
            time_ok(now),
        ensures
            final(self).wf(),
            final(self)@ == if old(self)@.contains_key(id) {
                old(self)@.insert(id, pushed(old(self)@[id], now, state))
            } else {
                old(self)@
            },
    {
        match self.buffers.remove(&id) {
            None => {
                assert(self@ =~= old(self)@);
            },
            Some(mut buffer) => {
                assert(old(self).buffers@[id].wf());
                buffer.push(now, state);
                self.buffers.insert(id, buffer);
                assert(self@ =~= old(self)@.insert(id, pushed(old(self)@[id], now, state)));
            },
        }
    }

    /// A player is no longer visible. Tells whether one was.
    pub fn leave(&mut self, id: ClientId) -> (was: bool)
        requires
            old(self).wf(),
        ensures
            final(self).wf(),
            final(self)@ == old(self)@.remove(id),
            was == old(self)@.contains_key(id),
    {
        let previous = self.buffers.remove(&id);
        assert(self@ =~= old(self)@.remove(id));
        previous.is_some()
    }

    /// Where to show a player at a time; nowhere if not visible.
    pub fn pose(&self, id: ClientId, t: i64) -> (pose: Option<Pose>)
        requires
            self.wf(),
            time_ok(t),
        ensures
            if self@.contains_key(id) {
                shows(self@[id], t, pose)
            } else {
                pose is None
            },
    {
        match self.buffers.get(&id) {
            Some(buffer) => buffer.sample(t),
            None => None,
        }
    }

    /// Forgets everybody.
    pub fn clear(&mut self)
        ensures
            final(self).wf(),
            final(self)@ == Map::<ClientId, Seq<(i64, PlayerSave)>>::empty(),
    {
        self.buffers.clear();
        assert(self@ =~= Map::<ClientId, Seq<(i64, PlayerSave)>>::empty());
    }
}

} // verus!
