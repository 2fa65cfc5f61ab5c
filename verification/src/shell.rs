//! The shell's own state, and what its pin commands do to the hardware.

use crate::command::{LedVerb, PinVerb, Verb};
use crate::gpio::{PULL_DOWN, PULL_NONE, PULL_UP};
use vstd::prelude::*;

verus! {

/// What the shell prints when it wants a command.
pub const PROMPT: &'static str = "hubris> ";

/// What the shell says when it starts.
pub const GREETING: &'static str = "\r\nHubris on RP2350 / Pico 2 -- type `help`\r\n";

/// The onboard LED's pin.
pub const LED_PIN: u8 = 25;

/// The PWM slice and channel behind that pin, and the pin function that joins
/// them.
pub const LED_SLICE: u8 = 4;

pub const LED_CHANNEL: u8 = 1;

pub const PWM_FUNCTION: u8 = 4;

/// One request to the GPIO or PWM driver.
#[derive(Copy, Clone, Debug, PartialEq, Eq, Structural)]
pub enum PinOp {
    SetFunction { pin: u8, function: u8 },
    SetDuty { slice: u8, channel: u8, percent: u8 },
    DisableSlice { slice: u8 },
    ConfigureOutput { pin: u8 },
    ConfigureInput { pin: u8 },
    SetHigh { pin: u8 },
    SetLow { pin: u8 },
    Toggle { pin: u8 },
    /// The pull is one of `PULL_NONE`, `PULL_UP` and `PULL_DOWN`.
    SetPull { pin: u8, pull: u8 },
    Read { pin: u8 },
}

/// What a pin command does: the requests of `prepare`, whatever they answer,
/// then those of `act` up to the first that fails. It succeeds when none does.
pub struct PinPlan {
    pub prepare: Vec<PinOp>,
    pub act: Vec<PinOp>,
}

/// The shell's state.
#[derive(Copy, Clone, Debug, PartialEq, Eq, Structural)]
pub struct Shell {
    /// Idle-loop LED heartbeat; `led on|off|toggle` takes manual control of the
    /// LED (turns this off), `led blink` gives it back.
    pub heartbeat: bool,
    /// Current I2C bus speed (kHz).
    pub i2c_khz: u32,
    /// Idle turns so far.
    pub idle: u32,
}

/// Idle turns between two beats of the heartbeat.
pub const BEAT: u32 = 25;

/// Whether a command takes the LED away from the heartbeat.
pub open spec fn takes_led(v: Verb) -> bool {
    match v {
        Verb::LedDim { .. } => true,
        Verb::Led { verb } => verb == LedVerb::On || verb == LedVerb::Off || verb
            == LedVerb::Toggle,
        _ => false,
    }
}

/// Whether a command gives the LED back to the heartbeat.
pub open spec fn gives_led(v: Verb) -> bool {
    v == (Verb::Led { verb: LedVerb::Blink })
}

impl Shell {
    /// A fresh shell: the heartbeat runs and the bus is at standard speed.
    pub fn new() -> (s: Shell)
        ensures
            s == (Shell { heartbeat: true, i2c_khz: 100, idle: 0 }),
    {
        Shell { heartbeat: true, i2c_khz: 100, idle: 0 }
    }

    /// Note what a command changes in the shell.
    pub fn note(&mut self, v: Verb)
        ensures
            final(self).heartbeat == if takes_led(v) {
                false
            } else if gives_led(v) {
                true
            } else {
                old(self).heartbeat
            },
            final(self).i2c_khz == match v {
                Verb::I2cSpeed { khz } => khz,
                _ => old(self).i2c_khz,
            },
            final(self).idle == old(self).idle,
    {
        match v {
            Verb::LedDim { .. } => {
                self.heartbeat = false;
            },
            Verb::Led { verb } => match verb {
                LedVerb::On | LedVerb::Off | LedVerb::Toggle => {
                    self.heartbeat = false;
                },
                LedVerb::Blink => {
                    self.heartbeat = true;
                },
                LedVerb::Unknown => {},
            },
            Verb::I2cSpeed { khz } => {
                self.i2c_khz = khz;
            },
            _ => {},
        }
    }

    /// An idle turn; returns whether the LED toggles.
    pub fn idle_turn(&mut self) -> (toggle: bool)
        ensures
            final(self).idle == (old(self).idle + 1) % 0x1_0000_0000,
            toggle == (old(self).heartbeat && final(self).idle % BEAT == 0),
            *final(self) == (Shell { idle: final(self).idle, ..*old(self) }),
    {
        self.idle = self.idle.wrapping_add(1);
        self.heartbeat && self.idle % BEAT == 0
    }
}

/// What `led` does.
pub open spec fn led_ops(v: Verb) -> (Seq<PinOp>, Seq<PinOp>) {
    match v {
        Verb::LedDim { pct } => (
            Seq::empty(),
            seq![
                PinOp::SetFunction { pin: LED_PIN, function: PWM_FUNCTION },
                PinOp::SetDuty { slice: LED_SLICE, channel: LED_CHANNEL, percent: pct },
            ],
        ),
        Verb::Led { verb } => (
            seq![
                PinOp::DisableSlice { slice: LED_SLICE },
                PinOp::ConfigureOutput { pin: LED_PIN },
            ],
            match verb {
                LedVerb::On => seq![PinOp::SetHigh { pin: LED_PIN }],
                LedVerb::Off => seq![PinOp::SetLow { pin: LED_PIN }],
                LedVerb::Toggle => seq![PinOp::Toggle { pin: LED_PIN }],
                _ => Seq::empty(),
            },
        ),
        _ => (Seq::empty(), Seq::empty()),
    }
}

/// Plan an `led` command: dimming hands the pin to PWM, everything else first
/// takes it back as a plain output.
pub fn led_plan(v: Verb) -> (p: PinPlan)
    ensures
        p.prepare@ == led_ops(v).0,
        p.act@ == led_ops(v).1,
{
    let mut prepare: Vec<PinOp> = Vec::new();
    let mut act: Vec<PinOp> = Vec::new();
    match v {
        Verb::LedDim { pct } => {
            act.push(PinOp::SetFunction { pin: LED_PIN, function: PWM_FUNCTION });
            act.push(PinOp::SetDuty { slice: LED_SLICE, channel: LED_CHANNEL, percent: pct });
        },
        Verb::Led { verb } => {
            prepare.push(PinOp::DisableSlice { slice: LED_SLICE });
            prepare.push(PinOp::ConfigureOutput { pin: LED_PIN });
            match verb {
                LedVerb::On => act.push(PinOp::SetHigh { pin: LED_PIN }),
                LedVerb::Off => act.push(PinOp::SetLow { pin: LED_PIN }),
                LedVerb::Toggle => act.push(PinOp::Toggle { pin: LED_PIN }),
                _ => {},
            }
        },
        _ => {},
    }
    assert(prepare@ =~= led_ops(v).0);
    assert(act@ =~= led_ops(v).1);
    PinPlan { prepare, act }
}

/// What a `gpio` verb does to a pin.
pub fn pin_op(verb: PinVerb, pin: u8) -> (op: PinOp)
    ensures
        op == match verb {
            PinVerb::Out => PinOp::ConfigureOutput { pin },
            PinVerb::In => PinOp::ConfigureInput { pin },
            PinVerb::High => PinOp::SetHigh { pin },
            PinVerb::Low => PinOp::SetLow { pin },
            PinVerb::Toggle => PinOp::Toggle { pin },
            PinVerb::Read => PinOp::Read { pin },
            PinVerb::PullNone => PinOp::SetPull { pin, pull: PULL_NONE },
            PinVerb::PullUp => PinOp::SetPull { pin, pull: PULL_UP },
            PinVerb::PullDown => PinOp::SetPull { pin, pull: PULL_DOWN },
        },
        // Each verb has an operation of its own, and it is on the pin that was named.
        op is SetHigh <==> verb is High,
        op is SetLow <==> verb is Low,
        op is Toggle <==> verb is Toggle,
        op is ConfigureOutput <==> verb is Out,
        op is ConfigureInput <==> verb is In,
        op is Read <==> verb is Read,
        op matches PinOp::SetPull { pull, .. } ==> (pull == 1 <==> verb is PullUp) && (pull == 2
            <==> verb is PullDown) && (pull == 0 <==> verb is PullNone),
{
    match verb {
        PinVerb::Out => PinOp::ConfigureOutput { pin },
        PinVerb::In => PinOp::ConfigureInput { pin },
        PinVerb::High => PinOp::SetHigh { pin },
        PinVerb::Low => PinOp::SetLow { pin },
        PinVerb::Toggle => PinOp::Toggle { pin },
        PinVerb::Read => PinOp::Read { pin },
        PinVerb::PullNone => PinOp::SetPull { pin, pull: PULL_NONE },
        PinVerb::PullUp => PinOp::SetPull { pin, pull: PULL_UP },
        PinVerb::PullDown => PinOp::SetPull { pin, pull: PULL_DOWN },
    }
}

/// The level of the LED's pin after some requests, from the one that it had.
pub open spec fn lit_after(ops: Seq<PinOp>, before: bool) -> bool
    decreases ops.len(),
{
    if ops.len() == 0 {
        before
    } else {
        let now = lit_after(ops.drop_last(), before);
        match ops.last() {
            PinOp::SetHigh { pin } if pin == 25 => true,
            PinOp::SetLow { pin } if pin == 25 => false,
            PinOp::Toggle { pin } if pin == 25 => !now,
            _ => now,
        }
    }
}

/// The LED does what its command says: on lights it, off puts it out, toggle turns
/// it round, and the pin is an output and free of PWM before. Dimming sets the duty
/// that was asked for, on the slice and channel behind the pin.
pub proof fn the_led_obeys(before: bool, pct: u8)
    ensures
        lit_after(led_ops(Verb::Led { verb: LedVerb::On }).1, before),
        !lit_after(led_ops(Verb::Led { verb: LedVerb::Off }).1, before),
        lit_after(led_ops(Verb::Led { verb: LedVerb::Toggle }).1, before) == !before,
        lit_after(led_ops(Verb::Led { verb: LedVerb::Blink }).1, before) == before,
        forall|verb: LedVerb|
            (#[trigger] led_ops(Verb::Led { verb })).0 == seq![
                PinOp::DisableSlice { slice: (25u8 / 2) % 8 },
                PinOp::ConfigureOutput { pin: 25 },
            ],
        led_ops(Verb::LedDim { pct }).1.last() == (PinOp::SetDuty {
            slice: (25u8 / 2) % 8,
            channel: 25u8 % 2,
            percent: pct,
        }),
        led_ops(Verb::LedDim { pct }).1[0] == (PinOp::SetFunction { pin: 25, function: 4 }),
{
    reveal_with_fuel(lit_after, 2);
    assert(led_ops(Verb::Led { verb: LedVerb::On }).1.drop_last() =~= Seq::empty());
    assert(led_ops(Verb::Led { verb: LedVerb::Off }).1.drop_last() =~= Seq::empty());
    assert(led_ops(Verb::Led { verb: LedVerb::Toggle }).1.drop_last() =~= Seq::empty());
}

/// The heartbeat toggles the LED once in twenty-five turns: two turns that toggle
/// are that far apart.
pub proof fn beats_are_even(idle: u32, other: u32)
    requires
        idle % BEAT == 0,
        other % BEAT == 0,
        idle < other,
    ensures
        other - idle >= 25,
        (other - idle) % 25 == 0,
{
}

} // verus!
