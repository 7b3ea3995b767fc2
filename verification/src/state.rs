//! The game state and its transition rules: a tick adds the production to
//! the counter, an upgrade doubles the production, a reset returns to the
//! fresh state, and save/load carry the state through the persistence blob
//! with offline catch-up.

use crate::counter::BigCounter;
use crate::digits::{append_digit_char, append_digits, dec_chars, digit_char, u64_to_digits};
use crate::persist::{blob_chars, read_blob, write_blob};
use vstd::prelude::*;
use vstd::string::StringExecFns;

verus! {

/// The mathematical content of a game state: the exact counter and
/// production values and the two wall-clock timestamps in milliseconds.
pub ghost struct GameModel {
    pub counter: nat,
    pub production: nat,
    pub last_save: int,
    pub last_saved_at: Option<int>,
}

/// A model the engine can actually hold: production at least one and
/// timestamps that fit the machine's clock representation.
pub open spec fn wf_model(m: GameModel) -> bool {
    &&& m.production >= 1
    &&& 0 <= m.last_save <= u64::MAX
    &&& match m.last_saved_at {
        Some(t) => 0 <= t <= u64::MAX,
        None => true,
    }
}

/// The canonical fresh state: nothing counted, production one, never saved.
pub open spec fn fresh_model(now: int) -> GameModel {
    GameModel { counter: 0, production: 1, last_save: now, last_saved_at: None }
}

/// One tick: the production is added to the counter, nothing else moves.
pub open spec fn tick_model(m: GameModel) -> GameModel {
    GameModel { counter: m.counter + m.production, ..m }
}

/// One upgrade: the production doubles, nothing else moves.
pub open spec fn upgrade_model(m: GameModel) -> GameModel {
    GameModel { production: m.production * 2, ..m }
}

/// A save at time `now`: both timestamps are stamped, the numbers stay.
pub open spec fn save_model(m: GameModel, now: int) -> GameModel {
    GameModel { last_save: now, last_saved_at: Some(now), ..m }
}

/// Whole seconds elapsed between a saved baseline and `now`, truncated,
/// clamped to zero when the clock ran backwards and to `u32::MAX` above.
pub open spec fn elapsed_seconds(last_save: int, now: int) -> int {
    let ms = if now >= last_save {
        now - last_save
    } else {
        0
    };
    let s = ms / 1000;
    if s > u32::MAX {
        u32::MAX as int
    } else {
        s
    }
}

/// Offline catch-up at load time: one production per whole elapsed second
/// since the saved baseline, and a new baseline at `now`.
pub open spec fn catch_up_model(m: GameModel, now: int) -> GameModel {
    GameModel {
        counter: m.counter + m.production * elapsed_seconds(m.last_save, now) as nat,
        last_save: now,
        ..m
    }
}

/// One immutable snapshot of the game.
pub struct State {
    pub counter: BigCounter,
    pub production: BigCounter,
    pub last_save: u64,
    pub last_saved_at: Option<u64>,
}

impl View for State {
    type V = GameModel;

    open spec fn view(&self) -> GameModel {
        GameModel {
            counter: self.counter@,
            production: self.production@,
            last_save: self.last_save as int,
            last_saved_at: match self.last_saved_at {
                Some(t) => Some(t as int),
                None => None,
            },
        }
    }
}

/// The actions the surrounding shell can deliver.
#[derive(Clone, Copy, PartialEq, Eq, Structural, Debug)]
pub enum Msg {
    Tick,
    UpgradeProduction,
    Save,
    Load,
    Reset,
}

impl State {
    /// The counters hold canonical digits and the production is at least one.
    pub open spec fn wf(&self) -> bool {
        &&& self.counter.wf()
        &&& self.production.wf()
        &&& self.production@ >= 1
    }

    /// The fresh state at time `now`.
    pub fn new(now: u64) -> (r: State)
        ensures
            r.wf(),
            r@ == fresh_model(now as int),
    {
        State {
            counter: BigCounter::zero(),
            production: BigCounter::one(),
            last_save: now,
            last_saved_at: None,
        }
    }

    /// An identical snapshot.
    pub fn dup(&self) -> (r: State)
        ensures
            r@ == self@,
            r.wf() == self.wf(),
    {
        State {
            counter: self.counter.dup(),
            production: self.production.dup(),
            last_save: self.last_save,
            last_saved_at: self.last_saved_at,
        }
    }

    /// Stamps both timestamps with `now` and renders the stamped state as
    /// the persistence blob; the stamped state is returned with the blob.
    pub fn save(&self, now: u64) -> (r: (State, String))
        requires
            self.wf(),
        ensures
            r.0.wf(),
            r.0@ == save_model(self@, now as int),
            r.1@ == blob_chars(save_model(self@, now as int)),
    {
        let stamped = State {
            counter: self.counter.dup(),
            production: self.production.dup(),
            last_save: now,
            last_saved_at: Some(now),
        };
        let blob = write_blob(&stamped);
        (stamped, blob)
    }

    /// Reads a state back from a blob at time `now`: exactly the canonical
    /// blobs of well-formed models are accepted, and the result is the
    /// stored model with offline catch-up applied.
    pub fn load(b: &str, now: u64) -> (r: Option<State>)
        ensures
            (r is Some) <==> (exists|m: GameModel| wf_model(m) && b@ == blob_chars(m)),
            forall|m: GameModel|
                wf_model(m) && b@ == blob_chars(m) ==> (r matches Some(s) && s.wf() && s@
                    == catch_up_model(m, now as int)),
    {
        read_blob(b, now)
    }

    /// Renders how long ago the last save happened: "Never" before any save,
    /// "Just now" under a minute, whole minutes under an hour (rounded to
    /// the nearest minute), tenths of hours beyond.
    pub fn format_last_saved(&self, now: u64) -> (r: String)
        ensures
            r@ == last_saved_chars(self@, now as int),
    {
        match self.last_saved_at {
            None => String::from_str("Never"),
            Some(t) => {
                let ms: u64 = if now >= t {
                    now - t
                } else {
                    0
                };
                if ms < 60000 {
                    String::from_str("Just now")
                } else if ms < 3600000 {
                    let mins128: u128 = (ms as u128 + 30000) / 60000;
                    let mins: u64 = mins128 as u64;
                    let md = u64_to_digits(mins);
                    let mut out = String::new();
                    append_digits(&mut out, &md);
                    out.append(" minutes ago");
                    out
                } else {
                    let tenths128: u128 = (ms as u128 + 180000) / 360000;
                    let tenths: u64 = tenths128 as u64;
                    let hd = u64_to_digits(tenths / 10);
                    let frac: u8 = (tenths % 10) as u8;
                    let mut out = String::new();
                    append_digits(&mut out, &hd);
                    out.append(".");
                    append_digit_char(&mut out, frac);
                    out.append(" hours ago");
                    proof {
                        reveal_strlit(".");
                        assert(out@ =~= last_saved_chars(self@, now as int));
                    }
                    out
                }
            },
        }
    }
}

/// The display text for the time since the last save, as a function of the
/// model and the clock.
pub open spec fn last_saved_chars(m: GameModel, now: int) -> Seq<char> {
    match m.last_saved_at {
        None => "Never"@,
        Some(t) => {
            let ms = if now >= t {
                now - t
            } else {
                0
            };
            if ms < 60000 {
                "Just now"@
            } else if ms < 3600000 {
                dec_chars(((ms + 30000) / 60000) as nat) + " minutes ago"@
            } else {
                let tenths = (ms + 180000) / 360000;
                dec_chars((tenths / 10) as nat) + seq!['.', digit_char((tenths % 10) as u8)]
                    + " hours ago"@
            }
        },
    }
}

/// Applies one action to the current state. `now` is the wall clock in
/// milliseconds; `stored` is the blob found in the durable store, if any,
/// consulted only by `Load`. The second component is the blob to write to
/// the store, produced only by `Save`. Save and load failures never lose
/// the in-memory state: the shell keeps the first component regardless.
pub fn reducer(state: &State, msg: Msg, now: u64, stored: Option<&str>) -> (r: (
    State,
    Option<String>,
))
    requires
        state.wf(),
    ensures
        r.0.wf(),
        match msg {
            Msg::Tick => r.0@ == tick_model(state@) && r.1 is None,
            Msg::UpgradeProduction => r.0@ == upgrade_model(state@) && r.1 is None,
            Msg::Reset => r.0@ == fresh_model(now as int) && r.1 is None,
            Msg::Save => r.0@ == save_model(state@, now as int) && (r.1 matches Some(b) && b@
                == blob_chars(save_model(state@, now as int))),
            Msg::Load => r.1 is None && (match stored {
                None => r.0@ == state@,
                Some(b) => {
                    &&& (forall|m: GameModel|
                        wf_model(m) && b@ == blob_chars(m) ==> r.0@ == catch_up_model(
                            m,
                            now as int,
                        ))
                    &&& ((exists|m: GameModel| wf_model(m) && b@ == blob_chars(m)) || r.0@
                        == state@)
                },
            }),
        },
{
    match msg {
        Msg::Tick => {
            let r = State {
                counter: state.counter.add(&state.production),
                production: state.production.dup(),
                last_save: state.last_save,
                last_saved_at: state.last_saved_at,
            };
            (r, None)
        },
        Msg::UpgradeProduction => {
            let r = State {
                counter: state.counter.dup(),
                production: state.production.scale(2),
                last_save: state.last_save,
                last_saved_at: state.last_saved_at,
            };
            (r, None)
        },
        Msg::Reset => (State::new(now), None),
        Msg::Save => {
            let (stamped, blob) = state.save(now);
            (stamped, Some(blob))
        },
        Msg::Load => match stored {
            None => (state.dup(), None),
            Some(b) => match State::load(b, now) {
                Some(loaded) => (loaded, None),
                None => (state.dup(), None),
            },
        },
    }
}

/// Law: a tick leaves the production and both timestamps unchanged and adds
/// exactly one production to the counter.
pub proof fn lemma_tick_law(m: GameModel)
    ensures
        tick_model(m).production == m.production,
        tick_model(m).counter == m.counter + m.production,
        tick_model(m).last_save == m.last_save,
        tick_model(m).last_saved_at == m.last_saved_at,
{
}

/// Law: an upgrade doubles the production and leaves the counter and both
/// timestamps unchanged.
pub proof fn lemma_upgrade_law(m: GameModel)
    ensures
        upgrade_model(m).production == m.production * 2,
        upgrade_model(m).counter == m.counter,
        upgrade_model(m).last_save == m.last_save,
        upgrade_model(m).last_saved_at == m.last_saved_at,
{
}

/// Law: a reset does not depend on the state it replaces — `reducer` sends
/// every state to `fresh_model(now)`, and that state is the canonical fresh
/// one: counter zero, production one, no recorded save.
pub proof fn lemma_reset_law(now: int)
    ensures
        fresh_model(now).counter == 0,
        fresh_model(now).production == 1,
        fresh_model(now).last_save == now,
        fresh_model(now).last_saved_at is None,
{
}

/// Law: saving twice in a row changes nothing but the timestamps — the
/// result is exactly what a single save at the later time produces, with
/// the counter and the production of the original state.
pub proof fn lemma_save_idempotent(m: GameModel, t1: int, t2: int)
    ensures
        save_model(save_model(m, t1), t2) == save_model(m, t2),
        save_model(save_model(m, t1), t2).counter == m.counter,
        save_model(save_model(m, t1), t2).production == m.production,
{
}

/// Law: a save followed by an immediate load reproduces the counter and the
/// production exactly — the blob written at time `t` reads back at time `t`
/// as the very state that was stamped, with no catch-up added.
pub proof fn lemma_save_load_round_trip(m: GameModel, t: int)
    requires
        wf_model(m),
        0 <= t <= u64::MAX,
    ensures
        wf_model(save_model(m, t)),
        catch_up_model(save_model(m, t), t) == save_model(m, t),
        catch_up_model(save_model(m, t), t).counter == m.counter,
        catch_up_model(save_model(m, t), t).production == m.production,
{
    assert(elapsed_seconds(t, t) == 0);
    assert(m.production * 0 == 0);
}

} // verus!
