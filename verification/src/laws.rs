use vstd::prelude::*;
use crate::output::{ChannelState, ConfigError};
use crate::player::{
    beat_step, clocked, lemma_beat_step_wf, lemma_boundary_ends_beat, lemma_mux_wf,
    lemma_retire_concat, lemma_retire_single, lemma_step_wf, loop_reset, loop_ticks, mux_step,
    retire, step, stop_state, PlayerView, TickOutcome,
};

verus! {

/// The state after `k` multiplexing steps.
pub open spec fn mux_iter(v: PlayerView, k: nat) -> PlayerView
    decreases k,
{
    if k == 0 {
        v
    } else {
        mux_step(mux_iter(v, (k - 1) as nat))
    }
}

/// The state after `n` ticks.
pub open spec fn run(v: PlayerView, n: nat) -> PlayerView
    decreases n,
{
    if n == 0 {
        v
    } else {
        step(run(v, (n - 1) as nat)).0
    }
}

/// The sounding set after `k` beat advances that admit nothing new.
pub open spec fn retire_iter(s: Seq<(u16, u16)>, k: nat) -> Seq<(u16, u16)>
    decreases k,
{
    if k == 0 {
        s
    } else {
        retire(retire_iter(s, (k - 1) as nat))
    }
}

/// Law: while paused, a tick leaves every counter, note and channel exactly
/// as it was and reports the paused signal.
pub proof fn lemma_paused_tick(v: PlayerView)
    requires
        v.paused,
    ensures
        step(v).0 == v,
        step(v).1 == Ok::<TickOutcome, ConfigError>(TickOutcome::Paused),
{
}

/// A tick short of the loop boundary never changes the configuration, moves
/// the timer forward by exactly one, and either advances or reports the
/// capacity fault; it stays unpaused whenever it advances.
pub proof fn lemma_step_advancing(v: PlayerView)
    requires
        v.wf(),
        !v.paused,
        v.timer + 1 < loop_ticks(v),
    ensures
        step(v).0.timer == v.timer + 1,
        step(v).1 == Ok::<TickOutcome, ConfigError>(TickOutcome::Advanced) || step(v).1 == Err::<
            TickOutcome,
            ConfigError,
        >(ConfigError::CapacityExceeded),
        step(v).1 == Ok::<TickOutcome, ConfigError>(TickOutcome::Advanced) ==> !step(v).0.paused,
        step(v).0.end == v.end,
        step(v).0.ticks_per_beat == v.ticks_per_beat,
        step(v).0.looping == v.looping,
{
    let t = v.ticks_per_beat;
    let e = v.end;
    let total = loop_ticks(v);
    assert(t <= total && 1 <= total) by (nonlinear_arith)
        requires
            t >= 1,
            e >= 1,
            total == t * e,
    ;
    let v1 = clocked(v);
    assert(1 <= v1.timer < total);
    vstd::arithmetic::div_mod::lemma_small_mod(v1.timer as nat, total as nat);
    assert(v1.timer % total != 0);
    if v1.beat_timer >= t {
        lemma_beat_step_wf(v1);
        let w = beat_step(v1).0;
        if beat_step(v1).1 {
            lemma_mux_wf(w);
        }
    } else {
        lemma_mux_wf(v1);
    }
}

/// Law: with looping off, a run from the fresh state over one full pass
/// pauses exactly once, at the pass's final tick. Every earlier tick leaves
/// the player running with the timer equal to the tick count and reports
/// `Advanced`; the final tick reports `Stopped` and pauses it. Once paused,
/// ticks change nothing more (`lemma_paused_tick`). The run is taken under
/// the stated assumption that no tick reports a capacity fault, which would
/// pause the player early.
pub proof fn lemma_single_pass_stops(v0: PlayerView, n: int)
    requires
        v0.wf(),
        !v0.paused,
        !v0.looping,
        v0.timer == 0,
        1 <= n <= loop_ticks(v0),
        forall|k: int| 0 <= k < n ==> !((#[trigger] step(run(v0, k as nat))).1 is Err),
    ensures
        run(v0, n as nat).wf(),
        run(v0, n as nat).end == v0.end,
        run(v0, n as nat).ticks_per_beat == v0.ticks_per_beat,
        run(v0, n as nat).looping == v0.looping,
        n < loop_ticks(v0) ==> run(v0, n as nat).timer == n && !run(v0, n as nat).paused && step(
            run(v0, (n - 1) as nat),
        ).1 == Ok::<TickOutcome, ConfigError>(TickOutcome::Advanced),
        n == loop_ticks(v0) ==> run(v0, n as nat).paused && run(v0, n as nat).timer == 0 && step(
            run(v0, (n - 1) as nat),
        ).1 == Ok::<TickOutcome, ConfigError>(TickOutcome::Stopped),
    decreases n,
{
    let total = loop_ticks(v0);
    let prev = if n == 1 {
        v0
    } else {
        run(v0, (n - 1) as nat)
    };
    if n > 1 {
        lemma_single_pass_stops(v0, n - 1);
        assert(step(run(v0, (n - 2) as nat)).1 == Ok::<TickOutcome, ConfigError>(
            TickOutcome::Advanced,
        ));
    }
    assert(run(v0, (n - 1) as nat) == prev);
    assert(prev.timer == n - 1 && !prev.paused && prev.wf());
    assert(loop_ticks(prev) == total);
    lemma_step_wf(prev);
    if n < total {
        lemma_step_advancing(prev);
        assert(!(step(prev).1 is Err));
        assert(step(prev).1 == Ok::<TickOutcome, ConfigError>(TickOutcome::Advanced));
        assert(run(v0, n as nat) == step(prev).0);
    } else {
        assert(n == total);
        let v1 = clocked(prev);
        assert(v1.timer == total);
        assert(total >= 1) by (nonlinear_arith)
            requires
                prev.ticks_per_beat >= 1,
                prev.end >= 1,
                total == prev.ticks_per_beat * prev.end,
        ;
        vstd::arithmetic::div_mod::lemma_mod_self_0(total);
        assert(step(prev) == (stop_state(v1), Ok::<TickOutcome, ConfigError>(TickOutcome::Stopped)));
        assert(run(v0, n as nat) == stop_state(v1));
    }
}

/// Law: while looping and unpaused, the timer strictly increases on every
/// tick until it reaches the loop boundary; the boundary tick resets it to
/// zero and, on that same tick, takes the beat back through its initial
/// value and advances it to beat zero of the next pass.
pub proof fn lemma_loop_boundary(v: PlayerView)
    requires
        v.wf(),
        !v.paused,
        v.looping,
    ensures
        v.timer + 1 < loop_ticks(v) ==> step(v).0.timer == v.timer + 1,
        v.timer + 1 == loop_ticks(v) ==> step(v).0.timer == 0 && step(v).0.beat == 0,
{
    let t = v.ticks_per_beat;
    let total = loop_ticks(v);
    if v.timer + 1 < total {
        lemma_step_advancing(v);
    } else if v.timer + 1 == total {
        let v1 = clocked(v);
        assert(total >= 1) by (nonlinear_arith)
            requires
                v.ticks_per_beat >= 1,
                v.end >= 1,
                total == v.ticks_per_beat * v.end,
        ;
        vstd::arithmetic::div_mod::lemma_mod_self_0(total);
        assert(v1.timer % total == 0);
        lemma_boundary_ends_beat(v);
        let v2 = loop_reset(v1);
        assert(v2.beat_timer == t);
        lemma_beat_step_wf(v2);
        let w = beat_step(v2).0;
        assert(w.beat == 0 && w.timer == 0);
        if beat_step(v2).1 {
            assert(w.wf_notes());
            lemma_mux_wf(w);
            assert(step(v).0 == mux_step(w));
        } else {
            assert(step(v).0 == w);
        }
    }
}

/// Law: a note of duration `d`, sounding with any notes before and after
/// it, keeps sounding for exactly `d` beat advances: after `k < d` advances
/// it survives, aged to `d - k` beats, in its place between its aged
/// neighbours, and after `d` advances it is gone — whatever else sounded
/// around it.
pub proof fn lemma_note_lifetime(
    pre: Seq<(u16, u16)>,
    f: u16,
    d: u16,
    post: Seq<(u16, u16)>,
    k: nat,
)
    requires
        1 <= d,
    ensures
        retire_iter(pre + seq![(f, d)] + post, k) == retire_iter(pre, k) + (if k < d {
            seq![(f, (d - k) as u16)]
        } else {
            Seq::<(u16, u16)>::empty()
        }) + retire_iter(post, k),
    decreases k,
{
    if k == 0 {
        assert(seq![(f, (d - 0) as u16)] =~= seq![(f, d)]);
    } else {
        let kp = (k - 1) as nat;
        lemma_note_lifetime(pre, f, d, post, kp);
        let a = retire_iter(pre, kp);
        let p = retire_iter(post, kp);
        let mid = if kp < d {
            seq![(f, (d - kp) as u16)]
        } else {
            Seq::<(u16, u16)>::empty()
        };
        assert(retire_iter(pre + seq![(f, d)] + post, k) == retire(a + mid + p));
        lemma_retire_concat(a + mid, p);
        assert((a + mid) + p =~= a + mid + p);
        lemma_retire_concat(a, mid);
        if kp < d {
            let note = (f, (d - kp) as u16);
            lemma_retire_single(note);
            if k < d {
                assert(note.1 > 1);
                assert(retire(mid) =~= seq![(f, (d - k) as u16)]);
            } else {
                assert(note.1 <= 1);
                assert(retire(mid) =~= Seq::<(u16, u16)>::empty());
            }
        } else {
            assert(mid =~= Seq::<(u16, u16)>::empty());
            assert(retire(Seq::<(u16, u16)>::empty()) =~= Seq::<(u16, u16)>::empty());
        }
        assert(retire(a + mid + p) =~= retire(a) + retire(mid) + retire(p));
    }
}

/// Law: with `N` sounding notes over `C < N` channels and the cursor at the
/// start, the next `N - C + 1` multiplexing steps program the last channel
/// with every overflow note — the notes at positions `C - 1` through
/// `N - 1` — exactly once, in order, before the cursor wraps around.
pub proof fn lemma_multiplex_cycle(v: PlayerView, k: int)
    requires
        v.channels.len() >= 1,
        v.notes.len() > v.channels.len(),
        v.cursor == 0,
        0 <= k <= v.notes.len() - v.channels.len(),
    ensures
        mux_iter(v, k as nat).cursor == k,
        mux_iter(v, k as nat).notes == v.notes,
        mux_iter(v, k as nat).channels.len() == v.channels.len(),
        mux_iter(v, (k + 1) as nat).channels[v.channels.len() - 1] == (ChannelState::Tone {
            frequency: v.notes[v.channels.len() - 1 + k].0,
        }),
    decreases k,
{
    let c = v.channels.len() as int;
    let n = v.notes.len() as int;
    if k == 0 {
        assert(mux_iter(v, 0) == v);
        assert(mux_iter(v, 1) == mux_step(mux_iter(v, 0)));
    } else {
        lemma_multiplex_cycle(v, k - 1);
        let w = mux_iter(v, k as nat);
        assert(w == mux_step(mux_iter(v, (k - 1) as nat)));
        assert(w.cursor == k);
        let u = mux_iter(v, (k + 1) as nat);
        assert(u == mux_step(w));
    }
}

} // verus!
