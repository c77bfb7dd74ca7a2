use vstd::prelude::*;
use arrayvec::ArrayVec;
use crate::output::{ChannelState, ConfigError};
use crate::score::{NoteAndDuration, Song};
use crate::sounding::{
    buffer_clear, buffer_get, buffer_len, buffer_new, buffer_remove, buffer_seq, buffer_set,
    buffer_try_push, NOTE_SLOTS,
};

verus! {

/// What one call to [`Player::tick`] did: advanced playback by a tick,
/// stopped at the end of a non-looping song, or did nothing while paused.
#[derive(Clone, Copy, Debug, PartialEq, Eq, Structural)]
pub enum TickOutcome {
    Advanced,
    Stopped,
    Paused,
}

/// The mathematical state of a player: its configuration, its counters, the
/// sounding notes as (frequency, duration) pairs, and what each output
/// channel is asked to do.
#[verifier::ext_equal]
pub ghost struct PlayerView {
    /// For each beat, the notes that begin there.
    pub song: Seq<Seq<(u16, u16)>>,
    /// The song's loop length in beats.
    pub end: int,
    /// Whether playback wraps around at the loop boundary.
    pub looping: bool,
    /// How many ticks make one beat.
    pub ticks_per_beat: int,
    /// The duty value applied to every sounding note.
    pub duty: u16,
    /// The configured bound on simultaneously sounding notes.
    pub capacity: int,
    /// Whether the player is paused.
    pub paused: bool,
    /// Ticks elapsed since the last loop restart.
    pub timer: int,
    /// Ticks since the last beat advance.
    pub beat_timer: int,
    /// The current beat; -1 before the first beat advance.
    pub beat: int,
    /// The round-robin index into the sounding notes used by multiplexing.
    pub cursor: int,
    /// The currently sounding notes, oldest first.
    pub notes: Seq<(u16, u16)>,
    /// The demanded state of each output channel.
    pub channels: Seq<ChannelState>,
}

/// `count` channels, all muted.
pub open spec fn muted_channels(count: int) -> Seq<ChannelState> {
    Seq::new(count as nat, |i: int| ChannelState::Muted)
}

/// One beat's worth of aging: every note loses one beat of duration, and
/// the notes whose duration runs out are dropped, the others keeping their
/// relative order.
pub open spec fn retire(s: Seq<(u16, u16)>) -> Seq<(u16, u16)>
    decreases s.len(),
{
    if s.len() == 0 {
        Seq::empty()
    } else {
        let head = s[0];
        let rest = retire(s.drop_first());
        if head.1 > 1 {
            seq![(head.0, (head.1 - 1) as u16)] + rest
        } else {
            rest
        }
    }
}

/// What `count` channels show right after a beat advance: channel `i` sounds
/// the `i`-th sounding note, and channels beyond the notes are muted.
pub open spec fn refreshed_channels(count: int, notes: Seq<(u16, u16)>) -> Seq<ChannelState> {
    Seq::new(
        count as nat,
        |i: int|
            if i < notes.len() {
                ChannelState::Tone { frequency: notes[i].0 }
            } else {
                ChannelState::Muted
            },
    )
}

/// The tick-length of one full pass of the song.
pub open spec fn loop_ticks(v: PlayerView) -> int {
    v.ticks_per_beat * v.end
}

/// Both counters advance by one tick.
pub open spec fn clocked(v: PlayerView) -> PlayerView {
    PlayerView { timer: v.timer + 1, beat_timer: v.beat_timer + 1, ..v }
}

/// The end of a non-looping song: muted, paused, counters back at their
/// initial values so that a later resume replays from the start.
pub open spec fn stop_state(v: PlayerView) -> PlayerView {
    PlayerView {
        paused: true,
        channels: muted_channels(v.channels.len() as int),
        timer: 0,
        beat_timer: 0,
        beat: -1,
        ..v
    }
}

/// The fresh-loop reset taken at the loop boundary while looping: only the
/// tick counter and the beat go back; the sounding notes play on.
pub open spec fn loop_reset(v: PlayerView) -> PlayerView {
    PlayerView { timer: 0, beat: -1, ..v }
}

/// A beat advance: the beat moves on, the sounding notes age by one beat,
/// the notes beginning at the new beat are appended (in order), and every
/// channel is refreshed. When the arriving notes would push the sounding
/// count past the configured capacity, nothing is admitted: the player
/// mutes, pauses and reports the misconfiguration instead.
pub open spec fn beat_step(v: PlayerView) -> (PlayerView, bool) {
    let b = v.beat + 1;
    let kept = retire(v.notes);
    let incoming = if 0 <= b < v.song.len() {
        v.song[b]
    } else {
        Seq::empty()
    };
    if kept.len() + incoming.len() <= v.capacity {
        (
            PlayerView {
                beat: b,
                beat_timer: 0,
                notes: kept + incoming,
                channels: refreshed_channels(v.channels.len() as int, kept + incoming),
                ..v
            },
            true,
        )
    } else {
        (
            PlayerView {
                beat: b,
                beat_timer: 0,
                notes: kept,
                channels: muted_channels(v.channels.len() as int),
                paused: true,
                ..v
            },
            false,
        )
    }
}

/// The multiplexing step, run on every unpaused tick: when more notes sound
/// than there are channels, the last channel is reprogrammed with the
/// overflow note under the cursor, and the cursor moves on, wrapping to the
/// start once it would run past the end of the list. The other channels are
/// left at whatever the last beat advance set them to.
pub open spec fn mux_step(v: PlayerView) -> PlayerView {
    let c = v.channels.len() as int;
    if v.notes.len() > c {
        let cur = if v.cursor > v.notes.len() - c {
            0
        } else {
            v.cursor
        };
        PlayerView {
            cursor: cur + 1,
            channels: v.channels.update(
                c - 1,
                ChannelState::Tone { frequency: v.notes[cur + c - 1].0 },
            ),
            ..v
        }
    } else {
        v
    }
}

/// The beat-boundary check and the multiplexing step of one tick.
pub open spec fn beat_phase(v: PlayerView) -> (PlayerView, Result<TickOutcome, ConfigError>) {
    if v.beat_timer >= v.ticks_per_beat {
        let r = beat_step(v);
        if r.1 {
            (mux_step(r.0), Ok(TickOutcome::Advanced))
        } else {
            (r.0, Err(ConfigError::CapacityExceeded))
        }
    } else {
        (mux_step(v), Ok(TickOutcome::Advanced))
    }
}

/// One whole tick of the engine, as a function from state to state and
/// outcome: a no-op while paused; otherwise the clock advances, the loop
/// boundary either stops or restarts the pass, a reached beat boundary
/// advances the beat, and multiplexing runs.
pub open spec fn step(v: PlayerView) -> (PlayerView, Result<TickOutcome, ConfigError>) {
    if v.paused {
        (v, Ok(TickOutcome::Paused))
    } else {
        let v1 = clocked(v);
        if v1.timer % loop_ticks(v) == 0 {
            if !v.looping {
                (stop_state(v1), Ok(TickOutcome::Stopped))
            } else {
                beat_phase(loop_reset(v1))
            }
        } else {
            beat_phase(v1)
        }
    }
}

/// The state a player is in right after construction (and after `restart`):
/// not paused, counters at their initial values, nothing sounding, every
/// channel muted.
pub open spec fn fresh_view(
    song: Seq<Seq<(u16, u16)>>,
    end: int,
    looping: bool,
    ticks_per_beat: int,
    duty: u16,
    capacity: int,
    channel_count: int,
) -> PlayerView {
    PlayerView {
        song,
        end,
        looping,
        ticks_per_beat,
        duty,
        capacity,
        paused: false,
        timer: 0,
        beat_timer: 0,
        beat: -1,
        cursor: 0,
        notes: Seq::empty(),
        channels: muted_channels(channel_count),
    }
}

impl PlayerView {
    /// The configuration facts that never change after construction.
    pub open spec fn wf_config(self) -> bool {
        &&& self.end >= 1
        &&& self.ticks_per_beat >= 1
        &&& self.ticks_per_beat * self.end <= u16::MAX as int
        &&& 0 <= self.capacity <= NOTE_SLOTS as int
        &&& self.channels.len() >= 1
        &&& forall|b: int, j: int|
            0 <= b < self.song.len() && 0 <= j < self.song[b].len() ==> {
                let n = #[trigger] self.song[b][j];
                n.0 >= 1 && n.1 >= 1
            }
    }

    /// The sounding notes stay within capacity, each with at least one beat
    /// left, and the multiplexing cursor stays within the buffer's bound.
    pub open spec fn wf_notes(self) -> bool {
        &&& self.notes.len() <= self.capacity
        &&& forall|k: int| 0 <= k < self.notes.len() ==> (#[trigger] self.notes[k]).1 >= 1
        &&& 0 <= self.cursor <= NOTE_SLOTS as int
    }

    /// How the counters relate: the beat timer counts ticks within the
    /// current beat, and the tick timer is the beats times the beat length
    /// plus the beat timer — counting from beat -1 on a fresh pass, and from
    /// beat 0 right after a loop wrap.
    pub open spec fn wf_counters(self) -> bool {
        &&& 0 <= self.beat_timer < self.ticks_per_beat
        &&& 0 <= self.timer < self.ticks_per_beat * self.end
        &&& -1 <= self.beat < self.end
        &&& (self.timer == (self.beat + 1) * self.ticks_per_beat + self.beat_timer
            || (self.beat >= 0 && self.timer == self.beat * self.ticks_per_beat + self.beat_timer))
    }

    /// Every state a correctly configured player can reach.
    pub open spec fn wf(self) -> bool {
        &&& self.wf_config()
        &&& self.wf_notes()
        &&& self.wf_counters()
        &&& (self.paused ==> self.channels == muted_channels(self.channels.len() as int))
    }
}

/// Retirement works note by note, so it distributes over concatenation.
pub proof fn lemma_retire_concat(a: Seq<(u16, u16)>, b: Seq<(u16, u16)>)
    ensures
        retire(a + b) == retire(a) + retire(b),
    decreases a.len(),
{
    if a.len() == 0 {
        assert(a + b =~= b);
        assert(retire(a) + retire(b) =~= retire(b));
    } else {
        lemma_retire_concat(a.drop_first(), b);
        assert((a + b).drop_first() =~= a.drop_first() + b);
        let head = a[0];
        assert((a + b)[0] == head);
        assert((a + b).len() > 0);
        if head.1 > 1 {
            let h = seq![(head.0, (head.1 - 1) as u16)];
            assert(retire(a + b) == h + retire((a + b).drop_first()));
            assert(h + (retire(a.drop_first()) + retire(b)) =~= (h + retire(a.drop_first()))
                + retire(b));
        }
    }
}

/// One note on its own ages to one beat less, or expires.
pub proof fn lemma_retire_single(x: (u16, u16))
    ensures
        x.1 > 1 ==> retire(seq![x]) == seq![(x.0, (x.1 - 1) as u16)],
        x.1 <= 1 ==> retire(seq![x]) == Seq::<(u16, u16)>::empty(),
{
    let single = seq![x];
    assert(single.len() == 1);
    assert(single[0] == x);
    assert(single.drop_first() =~= Seq::<(u16, u16)>::empty());
    assert(retire(Seq::<(u16, u16)>::empty()) == Seq::<(u16, u16)>::empty());
    if x.1 > 1 {
        assert(retire(single) =~= seq![(x.0, (x.1 - 1) as u16)]);
    }
}

/// Retirement never grows the list, and every surviving note still has at
/// least one beat left.
pub proof fn lemma_retire_bounds(s: Seq<(u16, u16)>)
    ensures
        retire(s).len() <= s.len(),
        forall|k: int| 0 <= k < retire(s).len() ==> (#[trigger] retire(s)[k]).1 >= 1,
    decreases s.len(),
{
    if s.len() == 0 {
    } else {
        lemma_retire_bounds(s.drop_first());
        let head = s[0];
        if head.1 > 1 {
            let h = seq![(head.0, (head.1 - 1) as u16)];
            assert(retire(s) == h + retire(s.drop_first()));
            assert forall|k: int| 0 <= k < retire(s).len() implies (#[trigger] retire(s)[k]).1
                >= 1 by {
                if k == 0 {
                    assert(retire(s)[0] == h[0]);
                } else {
                    assert(retire(s)[k] == retire(s.drop_first())[k - 1]);
                }
            }
        }
    }
}

/// Ages every sounding note by one beat, dropping the expired ones in place
/// and keeping the survivors' relative order.
fn retire_notes(buf: &mut ArrayVec<(u16, u16), 64>)
    ensures
        buffer_seq(*final(buf)) == retire(buffer_seq(*old(buf))),
{
    let ghost orig = buffer_seq(*old(buf));
    let mut len: usize = buffer_len(buf);
    let mut i: usize = 0;
    let ghost mut j: int = 0;
    proof {
        assert(orig.take(0) =~= Seq::<(u16, u16)>::empty());
        assert(orig.skip(0) =~= orig);
        assert(retire(orig.take(0)) + orig.skip(0) =~= orig);
    }
    while i < len
        invariant
            0 <= j <= orig.len(),
            len == buffer_seq(*buf).len(),
            i == retire(orig.take(j)).len(),
            buffer_seq(*buf) == retire(orig.take(j)) + orig.skip(j),
        decreases orig.len() - j,
    {
        proof {
            assert(orig.skip(j).len() == orig.len() - j);
            assert(orig.skip(j).len() > 0);
        }
        let note: (u16, u16) = buffer_get(buf, i);
        let ghost done = retire(orig.take(j));
        proof {
            assert(note == (done + orig.skip(j))[i as int]);
            assert(orig.skip(j)[0] == orig[j]);
            assert(note == orig[j]);
            assert(orig.take(j + 1) =~= orig.take(j) + seq![orig[j]]);
            lemma_retire_concat(orig.take(j), seq![orig[j]]);
            lemma_retire_single(orig[j]);
        }
        if note.1 > 1 {
            let aged: (u16, u16) = (note.0, note.1 - 1);
            buffer_set(buf, i, aged);
            proof {
                assert(retire(seq![orig[j]]) =~= seq![aged]);
                assert(retire(orig.take(j + 1)) =~= done + seq![aged]);
                assert(buffer_seq(*buf) =~= retire(orig.take(j + 1)) + orig.skip(j + 1));
                j = j + 1;
            }
            i = i + 1;
        } else {
            buffer_remove(buf, i);
            len = len - 1;
            proof {
                assert(retire(seq![orig[j]]) =~= Seq::<(u16, u16)>::empty());
                assert(retire(orig.take(j + 1)) =~= done);
                assert(buffer_seq(*buf) =~= retire(orig.take(j + 1)) + orig.skip(j + 1));
                j = j + 1;
            }
        }
    }
    proof {
        assert(orig.skip(j).len() == 0);
        assert(j == orig.len());
        assert(orig.take(j) =~= orig);
        assert(buffer_seq(*buf) =~= retire(orig));
    }
}

/// Appends every note of `list` to the buffer, in order.
fn admit_notes(buf: &mut ArrayVec<(u16, u16), 64>, list: &Vec<NoteAndDuration>)
    requires
        buffer_seq(*old(buf)).len() + list@.len() <= NOTE_SLOTS,
    ensures
        buffer_seq(*final(buf)) == buffer_seq(*old(buf)) + list@.map_values(
            |n: NoteAndDuration| n.as_pair(),
        ),
{
    let ghost base = buffer_seq(*old(buf));
    let ghost pairs = list@.map_values(|n: NoteAndDuration| n.as_pair());
    let mut k: usize = 0;
    proof {
        assert(base + pairs.take(0) =~= base);
    }
    while k < list.len()
        invariant
            k <= list@.len(),
            base.len() + list@.len() <= NOTE_SLOTS,
            pairs == list@.map_values(|n: NoteAndDuration| n.as_pair()),
            pairs.len() == list@.len(),
            buffer_seq(*buf) == base + pairs.take(k as int),
        decreases list@.len() - k,
    {
        let n: NoteAndDuration = list[k];
        let _pushed: bool = buffer_try_push(buf, (n.frequency, n.duration));
        proof {
            assert(pairs[k as int] == (n.frequency, n.duration));
            assert(pairs.take(k + 1) =~= pairs.take(k as int).push(pairs[k as int]));
            assert(buffer_seq(*buf) =~= base + pairs.take(k + 1));
        }
        k = k + 1;
    }
    proof {
        assert(pairs.take(list@.len() as int) =~= pairs);
    }
}

/// Reprograms every channel from the sounding notes: channel `i` takes the
/// `i`-th note's frequency, and channels past the notes are muted.
fn refresh_channels(channels: &mut Vec<ChannelState>, buf: &ArrayVec<(u16, u16), 64>)
    ensures
        final(channels)@ == refreshed_channels(old(channels)@.len() as int, buffer_seq(*buf)),
{
    let n: usize = buffer_len(buf);
    let c: usize = channels.len();
    let mut i: usize = 0;
    while i < c
        invariant
            i <= c,
            c == channels@.len(),
            n == buffer_seq(*buf).len(),
            forall|m: int|
                0 <= m < i ==> channels@[m] == refreshed_channels(c as int, buffer_seq(*buf))[m],
        decreases c - i,
    {
        if i < n {
            let note: (u16, u16) = buffer_get(buf, i);
            channels[i] = ChannelState::Tone { frequency: note.0 };
        } else {
            channels[i] = ChannelState::Muted;
        }
        i = i + 1;
    }
    assert(channels@ =~= refreshed_channels(c as int, buffer_seq(*buf)));
}

/// A beat advance preserves the configuration and note invariants, moves
/// only the beat, the beat timer, the notes and the channels, and pauses
/// over muted channels exactly when it reports a capacity fault.
pub proof fn lemma_beat_step_wf(v: PlayerView)
    requires
        v.wf_config(),
        v.wf_notes(),
    ensures
        ({
            let (w, ok) = beat_step(v);
            &&& w.wf_config()
            &&& w.wf_notes()
            &&& w.beat == v.beat + 1
            &&& w.beat_timer == 0
            &&& w.timer == v.timer
            &&& w.song == v.song
            &&& w.end == v.end
            &&& w.looping == v.looping
            &&& w.ticks_per_beat == v.ticks_per_beat
            &&& w.capacity == v.capacity
            &&& w.cursor == v.cursor
            &&& w.channels.len() == v.channels.len()
            &&& (ok ==> w.paused == v.paused)
            &&& (!ok ==> w.paused && w.channels == muted_channels(w.channels.len() as int))
        }),
{
    lemma_retire_bounds(v.notes);
    let b = v.beat + 1;
    let kept = retire(v.notes);
    let incoming = if 0 <= b < v.song.len() {
        v.song[b]
    } else {
        Seq::<(u16, u16)>::empty()
    };
    let w = beat_step(v).0;
    if kept.len() + incoming.len() <= v.capacity {
        assert forall|k: int| 0 <= k < w.notes.len() implies (#[trigger] w.notes[k]).1 >= 1 by {
            if k < kept.len() {
                assert(w.notes[k] == kept[k]);
            } else {
                assert(w.notes[k] == incoming[k - kept.len()]);
                assert(v.song[b][k - kept.len()].1 >= 1);
            }
        }
    }
}

/// Multiplexing moves only the cursor and the last channel, and keeps the
/// cursor within the buffer's bound.
pub proof fn lemma_mux_wf(v: PlayerView)
    requires
        v.channels.len() >= 1,
        v.notes.len() <= NOTE_SLOTS as int,
        0 <= v.cursor <= NOTE_SLOTS as int,
    ensures
        ({
            let w = mux_step(v);
            &&& w.song == v.song
            &&& w.end == v.end
            &&& w.looping == v.looping
            &&& w.ticks_per_beat == v.ticks_per_beat
            &&& w.duty == v.duty
            &&& w.capacity == v.capacity
            &&& w.paused == v.paused
            &&& w.timer == v.timer
            &&& w.beat_timer == v.beat_timer
            &&& w.beat == v.beat
            &&& w.notes == v.notes
            &&& w.channels.len() == v.channels.len()
            &&& 0 <= w.cursor <= NOTE_SLOTS as int
        }),
{
}

/// A tick that lands exactly on the loop boundary is also a beat boundary:
/// the beat timer reaches the beat length on that same tick.
pub proof fn lemma_boundary_ends_beat(v: PlayerView)
    requires
        v.wf(),
        v.timer + 1 == loop_ticks(v),
    ensures
        v.beat_timer + 1 == v.ticks_per_beat,
{
    let t = v.ticks_per_beat;
    let e = v.end;
    let bt1 = v.beat_timer + 1;
    if v.timer == (v.beat + 1) * t + v.beat_timer {
        let q = e - v.beat - 1;
        assert(bt1 == q * t) by (nonlinear_arith)
            requires
                v.timer + 1 == t * e,
                v.timer == (v.beat + 1) * t + v.beat_timer,
                bt1 == v.beat_timer + 1,
                q == e - v.beat - 1,
        ;
        assert(bt1 == t) by (nonlinear_arith)
            requires
                bt1 == q * t,
                1 <= bt1 <= t,
                t >= 1,
        ;
    } else {
        let q = e - v.beat;
        assert(bt1 == q * t) by (nonlinear_arith)
            requires
                v.timer + 1 == t * e,
                v.timer == v.beat * t + v.beat_timer,
                bt1 == v.beat_timer + 1,
                q == e - v.beat,
        ;
        assert(bt1 == t) by (nonlinear_arith)
            requires
                bt1 == q * t,
                1 <= bt1 <= t,
                t >= 1,
        ;
    }
}

/// One tick from any reachable state lands in a reachable state.
pub proof fn lemma_step_wf(v: PlayerView)
    requires
        v.wf(),
    ensures
        step(v).0.wf(),
{
    let t = v.ticks_per_beat;
    let e = v.end;
    let total = t * e;
    assert(t <= total && e <= total && 1 <= total) by (nonlinear_arith)
        requires
            t >= 1,
            e >= 1,
            total == t * e,
    ;
    if !v.paused {
        let v1 = clocked(v);
        if v1.timer % total == 0 {
            if v1.timer < total {
                vstd::arithmetic::div_mod::lemma_small_mod(v1.timer as nat, total as nat);
            }
            assert(v1.timer == total);
            lemma_boundary_ends_beat(v);
            assert(v1.beat_timer == t);
            if !v.looping {
                let w = stop_state(v1);
                assert(w.channels == muted_channels(w.channels.len() as int));
                assert(w.timer == (w.beat + 1) * t + w.beat_timer) by (nonlinear_arith)
                    requires
                        w.timer == 0 && w.beat == -1 && w.beat_timer == 0 && t == w.ticks_per_beat,
                ;
                assert(w.wf());
            } else {
                let v2 = loop_reset(v1);
                lemma_beat_step_wf(v2);
                let w = beat_step(v2).0;
                let ok = beat_step(v2).1;
                assert(w.timer == w.beat * t + w.beat_timer) by (nonlinear_arith)
                    requires
                        w.timer == 0 && w.beat == 0 && w.beat_timer == 0 && t == w.ticks_per_beat,
                ;
                assert(w.wf_counters());
                if ok {
                    lemma_mux_wf(w);
                    let m = mux_step(w);
                    assert(m.wf());
                } else {
                    assert(w.wf());
                }
            }
        } else {
            vstd::arithmetic::div_mod::lemma_mod_self_0(total);
            assert(v1.timer != total);
            assert(v1.timer < total);
            if v1.beat_timer >= t {
                assert(v1.beat_timer == t);
                lemma_beat_step_wf(v1);
                let w = beat_step(v1).0;
                let ok = beat_step(v1).1;
                if v.timer == (v.beat + 1) * t + v.beat_timer {
                    assert(w.timer == (w.beat + 1) * t + w.beat_timer && w.beat < e)
                        by (nonlinear_arith)
                        requires
                            w.timer == v.timer + 1,
                            v.timer == (v.beat + 1) * t + v.beat_timer,
                            v.beat_timer + 1 == t,
                            w.beat == v.beat + 1,
                            w.beat_timer == 0,
                            w.timer < t * e,
                            t >= 1,
                    ;
                } else {
                    assert(w.beat >= 0 && w.timer == w.beat * t + w.beat_timer && w.beat < e)
                        by (nonlinear_arith)
                        requires
                            w.timer == v.timer + 1,
                            v.timer == v.beat * t + v.beat_timer,
                            v.beat >= 0,
                            v.beat_timer + 1 == t,
                            w.beat == v.beat + 1,
                            w.beat_timer == 0,
                            w.timer < t * e,
                            t >= 1,
                    ;
                }
                assert(w.wf_counters());
                if ok {
                    lemma_mux_wf(w);
                    assert(mux_step(w).wf());
                } else {
                    assert(w.wf());
                }
            } else {
                lemma_mux_wf(v1);
                assert(mux_step(v1).wf());
            }
        }
    }
}

/// Plays a [`Song`], one tick at a time.
///
/// The host environment calls [`Player::tick`] at a fixed cadence; the
/// player keeps the per-channel demands in [`ChannelState`] values, which
/// the host reads back and programs into its waveform generators.
pub struct Player<'a> {
    song: &'a Song,
    looping: bool,
    ticks_per_beat: u16,
    duty: u16,
    max_notes: usize,
    paused: bool,
    timer: u16,
    beat_timer: u16,
    beat: i32,
    multiplex_cursor: usize,
    playing_notes: ArrayVec<(u16, u16), 64>,
    channels: Vec<ChannelState>,
}

impl<'a> View for Player<'a> {
    type V = PlayerView;

    closed spec fn view(&self) -> PlayerView {
        PlayerView {
            song: self.song.slots(),
            end: self.song.end as int,
            looping: self.looping,
            ticks_per_beat: self.ticks_per_beat as int,
            duty: self.duty,
            capacity: self.max_notes as int,
            paused: self.paused,
            timer: self.timer as int,
            beat_timer: self.beat_timer as int,
            beat: self.beat as int,
            cursor: self.multiplex_cursor as int,
            notes: buffer_seq(self.playing_notes),
            channels: self.channels@,
        }
    }
}

/// Mutes every channel in the vector.
fn mute_vec(channels: &mut Vec<ChannelState>)
    ensures
        final(channels)@ == muted_channels(old(channels)@.len() as int),
{
    let c: usize = channels.len();
    let mut i: usize = 0;
    while i < c
        invariant
            i <= c,
            c == channels@.len(),
            forall|m: int| 0 <= m < i ==> channels@[m] == ChannelState::Muted,
        decreases c - i,
    {
        channels[i] = ChannelState::Muted;
        i = i + 1;
    }
    assert(channels@ =~= muted_channels(c as int));
}

impl<'a> Player<'a> {
    /// Builds a player over `song`.
    ///
    /// `looping` makes the song start over once it ends; `ticks_per_beat`
    /// says how many [`Player::tick`] calls make one beat; `duty` is the
    /// duty value the host applies to every sounding note; `channel_count`
    /// is the number of physical output channels; `max_notes` bounds how
    /// many notes may sound at once, and must cover the score's peak
    /// concurrency.
    pub fn new(
        song: &'a Song,
        looping: bool,
        ticks_per_beat: u16,
        duty: u16,
        channel_count: usize,
        max_notes: usize,
    ) -> (r: Player<'a>)
        requires
            song.wf(),
            ticks_per_beat >= 1,
            ticks_per_beat as int * song.end as int <= u16::MAX as int,
            channel_count >= 1,
            max_notes <= NOTE_SLOTS,
        ensures
            r@ == fresh_view(
                song.slots(),
                song.end as int,
                looping,
                ticks_per_beat as int,
                duty,
                max_notes as int,
                channel_count as int,
            ),
            r@.wf(),
    {
        let mut channels: Vec<ChannelState> = Vec::new();
        let mut i: usize = 0;
        while i < channel_count
            invariant
                i <= channel_count,
                channels@.len() == i as int,
                forall|m: int| 0 <= m < i ==> channels@[m] == ChannelState::Muted,
            decreases channel_count - i,
        {
            channels.push(ChannelState::Muted);
            i = i + 1;
        }
        assert(channels@ =~= muted_channels(channel_count as int));
        let r = Player {
            song,
            looping,
            ticks_per_beat,
            duty,
            max_notes,
            paused: false,
            timer: 0,
            beat_timer: 0,
            beat: -1,
            multiplex_cursor: 0,
            playing_notes: buffer_new(),
            channels,
        };
        proof {
            assert(r@ =~= fresh_view(
                song.slots(),
                song.end as int,
                looping,
                ticks_per_beat as int,
                duty,
                max_notes as int,
                channel_count as int,
            ));
            assert(r@.ticks_per_beat * r@.end >= 1) by (nonlinear_arith)
                requires r@.ticks_per_beat >= 1 && r@.end >= 1;
        }
        r
    }

    /// Pauses playback, muting every channel; a no-op when already paused.
    /// Resume with [`Player::resume`].
    pub fn pause(&mut self)
        ensures
            old(self)@.paused ==> final(self)@ == old(self)@,
            !old(self)@.paused ==> final(self)@ == (PlayerView {
                paused: true,
                channels: muted_channels(old(self)@.channels.len() as int),
                ..old(self)@
            }),
            old(self)@.wf() ==> final(self)@.wf(),
    {
        if !self.paused {
            mute_vec(&mut self.channels);
            self.paused = true;
            assert(final(self)@ =~= (PlayerView {
                paused: true,
                channels: muted_channels(old(self)@.channels.len() as int),
                ..old(self)@
            }));
        }
    }

    /// Resumes after [`Player::pause`], continuing from the exact counters
    /// where playback left off; a no-op when not paused.
    pub fn resume(&mut self)
        ensures
            final(self)@ == (PlayerView { paused: false, ..old(self)@ }),
            old(self)@.wf() ==> final(self)@.wf(),
    {
        if self.paused {
            self.paused = false;
        }
        assert(final(self)@ =~= (PlayerView { paused: false, ..old(self)@ }));
    }

    /// Starts the song from the beginning: every counter returns to its
    /// initial value, the sounding notes are dropped, and the channels are
    /// freshly muted; playback runs whether or not it was paused. The
    /// resulting state is exactly the one [`Player::new`] returns.
    pub fn restart(&mut self)
        ensures
            final(self)@ == fresh_view(
                old(self)@.song,
                old(self)@.end,
                old(self)@.looping,
                old(self)@.ticks_per_beat,
                old(self)@.duty,
                old(self)@.capacity,
                old(self)@.channels.len() as int,
            ),
            old(self)@.wf() ==> final(self)@.wf(),
    {
        self.beat = -1;
        self.timer = 0;
        self.beat_timer = 0;
        self.multiplex_cursor = 0;
        buffer_clear(&mut self.playing_notes);
        mute_vec(&mut self.channels);
        self.paused = false;
        proof {
            assert(final(self)@ =~= fresh_view(
                old(self)@.song,
                old(self)@.end,
                old(self)@.looping,
                old(self)@.ticks_per_beat,
                old(self)@.duty,
                old(self)@.capacity,
                old(self)@.channels.len() as int,
            ));
            if old(self)@.wf() {
                let t = old(self)@.ticks_per_beat;
                let e = old(self)@.end;
                assert(t * e >= 1) by (nonlinear_arith)
                    requires t >= 1 && e >= 1;
            }
        }
    }

    /// A beat advance: moves the beat on, ages and retires the sounding
    /// notes, admits the notes beginning at the new beat, and refreshes all
    /// channels; reports `false` when the arriving notes would exceed the
    /// configured capacity, muting and pausing instead of admitting them.
    fn play_beat(&mut self) -> (ok: bool)
        requires
            old(self)@.wf_config(),
            old(self)@.wf_notes(),
            -1 <= old(self)@.beat < old(self)@.end,
        ensures
            final(self)@ == beat_step(old(self)@).0,
            ok == beat_step(old(self)@).1,
            final(self)@.wf_notes(),
    {
        proof {
            lemma_retire_bounds(old(self)@.notes);
        }
        self.beat_timer = 0;
        self.beat = self.beat + 1;
        retire_notes(&mut self.playing_notes);
        let ghost kept = retire(old(self)@.notes);
        let kept_len: usize = buffer_len(&self.playing_notes);
        let b: usize = self.beat as usize;
        let ghost bb = old(self)@.beat + 1;
        let ghost incoming = if 0 <= bb < old(self)@.song.len() {
            old(self)@.song[bb]
        } else {
            Seq::<(u16, u16)>::empty()
        };
        let song: &Song = self.song;
        let mut ok: bool = true;
        proof {
            assert(kept_len <= old(self)@.notes.len() <= old(self)@.capacity);
        }
        if b < song.notes.len() {
            proof {
                assert(old(self)@.song[bb] == song.slot(bb));
            }
            if let Some(list) = &song.notes[b] {
                proof {
                    assert(song.slot(bb) == list@.map_values(|n: NoteAndDuration| n.as_pair()));
                    assert(incoming.len() == list@.len());
                }
                if list.len() > self.max_notes - kept_len {
                    ok = false;
                } else {
                    admit_notes(&mut self.playing_notes, list);
                }
            } else {
                proof {
                    assert(incoming =~= Seq::<(u16, u16)>::empty());
                    assert(buffer_seq(self.playing_notes) =~= kept + incoming);
                }
            }
        } else {
            proof {
                assert(incoming =~= Seq::<(u16, u16)>::empty());
                assert(buffer_seq(self.playing_notes) =~= kept + incoming);
            }
        }
        if ok {
            proof {
                assert(kept.len() + incoming.len() <= old(self)@.capacity);
                assert(buffer_seq(self.playing_notes) =~= kept + incoming);
            }
            refresh_channels(&mut self.channels, &self.playing_notes);
            proof {
                lemma_beat_step_wf(old(self)@);
                assert(final(self)@ =~= beat_step(old(self)@).0);
            }
            true
        } else {
            mute_vec(&mut self.channels);
            self.paused = true;
            proof {
                assert(kept.len() + incoming.len() > old(self)@.capacity);
                lemma_beat_step_wf(old(self)@);
                assert(final(self)@ =~= beat_step(old(self)@).0);
            }
            false
        }
    }

    /// The multiplexing step: when more notes sound than there are channels,
    /// reprograms the last channel with the overflow note under the cursor
    /// and moves the cursor on, wrapping it once it would run past the end.
    fn mux(&mut self)
        requires
            old(self)@.channels.len() >= 1,
            old(self)@.notes.len() <= NOTE_SLOTS as int,
            0 <= old(self)@.cursor <= NOTE_SLOTS as int,
        ensures
            final(self)@ == mux_step(old(self)@),
    {
        let n: usize = buffer_len(&self.playing_notes);
        let c: usize = self.channels.len();
        if n > c {
            if self.multiplex_cursor > n - c {
                self.multiplex_cursor = 0;
            }
            let idx: usize = self.multiplex_cursor + c - 1;
            let note: (u16, u16) = buffer_get(&self.playing_notes, idx);
            self.channels[c - 1] = ChannelState::Tone { frequency: note.0 };
            self.multiplex_cursor = self.multiplex_cursor + 1;
            assert(final(self)@ =~= mux_step(old(self)@));
        } else {
            assert(final(self)@ =~= mux_step(old(self)@));
        }
    }

    /// Advances playback by one tick: a reported no-op while paused;
    /// otherwise the clock moves, a reached loop boundary either stops a
    /// non-looping song or starts the pass over, a reached beat boundary
    /// plays the next beat, and the overflow notes are multiplexed. The
    /// resulting state and outcome are exactly what [`step`] says; a
    /// capacity fault is reported as a [`ConfigError`], never hidden.
    pub fn tick(&mut self) -> (r: Result<TickOutcome, ConfigError>)
        requires
            old(self)@.wf(),
        ensures
            final(self)@ == step(old(self)@).0,
            r == step(old(self)@).1,
            final(self)@.wf(),
            old(self)@.paused ==> final(self)@ == old(self)@ && r == Ok::<
                TickOutcome,
                ConfigError,
            >(TickOutcome::Paused),
    {
        proof {
            lemma_step_wf(old(self)@);
        }
        if self.paused {
            return Ok(TickOutcome::Paused);
        }
        proof {
            let t = old(self)@.ticks_per_beat;
            let e = old(self)@.end;
            assert(t <= t * e && 1 <= t * e) by (nonlinear_arith)
                requires
                    t >= 1,
                    e >= 1,
            ;
        }
        self.timer = self.timer + 1;
        self.beat_timer = self.beat_timer + 1;
        let total: u32 = (self.ticks_per_beat as u32) * (self.song.end as u32);
        let ghost v1 = clocked(old(self)@);
        proof {
            assert(self@ =~= v1);
            assert(total as int == loop_ticks(old(self)@));
        }
        if (self.timer as u32) % total == 0 {
            if !self.looping {
                mute_vec(&mut self.channels);
                self.paused = true;
                self.timer = 0;
                self.beat_timer = 0;
                self.beat = -1;
                proof {
                    assert(final(self)@ =~= stop_state(v1));
                }
                return Ok(TickOutcome::Stopped);
            }
            self.timer = 0;
            self.beat = -1;
        }
        let ghost vstar = self@;
        proof {
            if v1.timer % loop_ticks(old(self)@) == 0 {
                assert(vstar =~= loop_reset(v1));
            } else {
                assert(vstar =~= v1);
            }
            assert(step(old(self)@) == beat_phase(vstar));
            assert(vstar.wf_config());
            assert(vstar.wf_notes());
        }
        if self.beat_timer >= self.ticks_per_beat {
            let ok = self.play_beat();
            if !ok {
                proof {
                    assert(final(self)@ == beat_phase(vstar).0);
                    assert(beat_phase(vstar).1 == Err::<TickOutcome, ConfigError>(
                        ConfigError::CapacityExceeded,
                    ));
                }
                return Err(ConfigError::CapacityExceeded);
            }
            proof {
                assert(self@.channels.len() == vstar.channels.len());
                assert(self@.capacity == vstar.capacity <= NOTE_SLOTS as int);
            }
            self.mux();
            proof {
                assert(final(self)@ == mux_step(beat_step(vstar).0));
                assert(final(self)@ == beat_phase(vstar).0);
            }
            return Ok(TickOutcome::Advanced);
        }
        self.mux();
        proof {
            assert(final(self)@ == mux_step(vstar));
            assert(final(self)@ == beat_phase(vstar).0);
        }
        Ok(TickOutcome::Advanced)
    }

    /// Whether the player is paused.
    pub fn is_paused(&self) -> (r: bool)
        ensures
            r == self@.paused,
    {
        self.paused
    }

    /// Ticks elapsed since the last loop restart.
    pub fn timer_ticks(&self) -> (r: u16)
        ensures
            r as int == self@.timer,
    {
        self.timer
    }

    /// The current beat; -1 before the first beat advance.
    pub fn current_beat(&self) -> (r: i32)
        ensures
            r as int == self@.beat,
    {
        self.beat
    }

    /// What channel `i` is asked to do, or `None` past the channel count.
    pub fn channel(&self, i: usize) -> (r: Option<ChannelState>)
        ensures
            r == (if i < self@.channels.len() {
                Some(self@.channels[i as int])
            } else {
                None::<ChannelState>
            }),
    {
        if i < self.channels.len() {
            Some(self.channels[i])
        } else {
            None
        }
    }

    /// How many notes are currently sounding.
    pub fn sounding_count(&self) -> (r: usize)
        ensures
            r == self@.notes.len(),
    {
        buffer_len(&self.playing_notes)
    }

    /// The `i`-th sounding note as a (frequency, duration) pair, or `None`
    /// past the sounding count.
    pub fn sounding_note(&self, i: usize) -> (r: Option<(u16, u16)>)
        ensures
            r == (if i < self@.notes.len() {
                Some(self@.notes[i as int])
            } else {
                None::<(u16, u16)>
            }),
    {
        if i < buffer_len(&self.playing_notes) {
            Some(buffer_get(&self.playing_notes, i))
        } else {
            None
        }
    }
}

} // verus!
