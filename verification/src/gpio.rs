//! The pins: which register writes an operation on a pin takes.

use crate::errors::GpioError;
use vstd::prelude::*;

verus! {

/// The last pin that can be reached.
pub const MAX_PIN: u8 = 31;

/// The function that gives a pin to the processor.
pub const FUNCSEL_SIO: u8 = 5;

/// The last function.
pub const MAX_FUNCSEL: u8 = 0x1f;

/// How a pad is set up. Its isolation always ends.
#[derive(Copy, Clone, Debug, PartialEq, Eq, Structural)]
pub struct Pad {
    /// Whether the output driver is off.
    pub output_off: bool,
    /// Whether the input buffer is switched on; otherwise it is left.
    pub input_on: bool,
}

/// A register write.
#[derive(Copy, Clone, Debug, PartialEq, Eq, Structural)]
pub enum PinWrite {
    /// Set a pad up.
    Pad(u8, Pad),
    /// Give a pin to a function.
    Function(u8, u8),
    /// Drive the pins of a mask.
    Drive(u32),
    /// Release the pins of a mask.
    Release(u32),
    /// Raise the pins of a mask.
    Raise(u32),
    /// Lower the pins of a mask.
    Lower(u32),
    /// Turn the pins of a mask round.
    Toggle(u32),
}

/// No pull.
pub const PULL_NONE: u8 = 0;

/// Pull the pin up.
pub const PULL_UP: u8 = 1;

/// Pull the pin down.
pub const PULL_DOWN: u8 = 2;

/// An operation on a pin.
#[derive(Copy, Clone, Debug, PartialEq, Eq, Structural)]
pub enum PinRequest {
    /// Make it an output.
    Output,
    /// Make it an input.
    Input,
    /// Raise it.
    High,
    /// Lower it.
    Low,
    /// Turn it round.
    Toggle,
    /// Give it to a function.
    Function(u8),
}

/// The mask of a pin.
pub open spec fn mask(pin: u8) -> u32 {
    vstd::arithmetic::power2::pow2(pin as nat) as u32
}

/// The mask of a pin.
fn mask_of(pin: u8) -> (r: u32)
    requires
        pin <= MAX_PIN,
    ensures
        r == mask(pin),
        r == vstd::arithmetic::power2::pow2(pin as nat),
{
    let mut r: u32 = 1;
    let mut i: u8 = 0;
    proof {
        vstd::arithmetic::power2::lemma2_to64();
    }
    while i < pin
        invariant
            i <= pin <= 31,
            r == vstd::arithmetic::power2::pow2(i as nat),
            i < 31 ==> r <= 0x4000_0000,
            i == 31 ==> r == 0x8000_0000,
        decreases pin - i,
    {
        proof {
            vstd::arithmetic::power2::lemma_pow2_unfold((i + 1) as nat);
            vstd::arithmetic::power2::lemma2_to64();
            if i + 1 < 31 {
                vstd::arithmetic::power2::lemma_pow2_strictly_increases(
                    (i + 1) as nat,
                    31,
                );
                assert(vstd::arithmetic::power2::pow2((i + 1) as nat) <= 0x4000_0000) by {
                    if i + 1 < 30 {
                        vstd::arithmetic::power2::lemma_pow2_strictly_increases(
                            (i + 1) as nat,
                            30,
                        );
                    }
                }
            }
        }
        r = 2 * r;
        i = i + 1;
    }
    r
}

/// The register writes of an operation.
pub open spec fn writes(pin: u8, req: PinRequest) -> Seq<PinWrite> {
    match req {
        PinRequest::Output => seq![
            PinWrite::Pad(pin, Pad { output_off: false, input_on: false }),
            PinWrite::Function(pin, FUNCSEL_SIO),
            PinWrite::Drive(mask(pin)),
        ],
        PinRequest::Input => seq![
            PinWrite::Pad(pin, Pad { output_off: true, input_on: true }),
            PinWrite::Function(pin, FUNCSEL_SIO),
            PinWrite::Release(mask(pin)),
        ],
        PinRequest::High => seq![PinWrite::Raise(mask(pin))],
        PinRequest::Low => seq![PinWrite::Lower(mask(pin))],
        PinRequest::Toggle => seq![PinWrite::Toggle(mask(pin))],
        PinRequest::Function(f) => seq![
            PinWrite::Pad(pin, Pad { output_off: false, input_on: true }),
            PinWrite::Function(pin, f),
        ],
    }
}

/// Whether an operation is possible: there is such a pin, and such a function.
pub open spec fn possible(pin: u8, req: PinRequest) -> bool {
    &&& pin <= MAX_PIN
    &&& (req matches PinRequest::Function(f) ==> f <= MAX_FUNCSEL)
}

/// The register writes of an operation on a pin.
pub fn operate(pin: u8, req: PinRequest) -> (r: Result<Vec<PinWrite>, GpioError>)
    ensures
        r is Ok <==> possible(pin, req),
        r matches Ok(v) ==> v@ == writes(pin, req),
        r matches Err(e) ==> e == GpioError::InvalidPin,
{
    if pin > MAX_PIN {
        return Err(GpioError::InvalidPin);
    }
    let m: u32 = mask_of(pin);
    let mut v: Vec<PinWrite> = Vec::new();
    match req {
        PinRequest::Output => {
            v.push(PinWrite::Pad(pin, Pad { output_off: false, input_on: false }));
            v.push(PinWrite::Function(pin, FUNCSEL_SIO));
            v.push(PinWrite::Drive(m));
        },
        PinRequest::Input => {
            v.push(PinWrite::Pad(pin, Pad { output_off: true, input_on: true }));
            v.push(PinWrite::Function(pin, FUNCSEL_SIO));
            v.push(PinWrite::Release(m));
        },
        PinRequest::High => {
            v.push(PinWrite::Raise(m));
        },
        PinRequest::Low => {
            v.push(PinWrite::Lower(m));
        },
        PinRequest::Toggle => {
            v.push(PinWrite::Toggle(m));
        },
        PinRequest::Function(f) => {
            if f > MAX_FUNCSEL {
                return Err(GpioError::InvalidPin);
            }
            v.push(PinWrite::Pad(pin, Pad { output_off: false, input_on: true }));
            v.push(PinWrite::Function(pin, f));
        },
    }
    assert(v@ =~= writes(pin, req));
    Ok(v)
}

/// The level of a pin, out of the levels of all.
pub fn read(pin: u8, levels: u32) -> (r: Result<u8, GpioError>)
    ensures
        r is Ok <==> pin <= MAX_PIN,
        r matches Ok(b) ==> b == levels as int / (vstd::arithmetic::power2::pow2(pin as nat) as int)
            % 2,
        r matches Err(e) ==> e == GpioError::InvalidPin,
{
    if pin > MAX_PIN {
        return Err(GpioError::InvalidPin);
    }
    let m: u32 = mask_of(pin);
    assert(m > 0) by {
        vstd::arithmetic::power2::lemma_pow2_pos(pin as nat);
    }
    Ok((levels / m % 2) as u8)
}

/// What the pins are: the level that each is given, whether it is driven, and
/// the function that it has.
pub struct Bank {
    pub level: Seq<bool>,
    pub driven: Seq<bool>,
    pub function: Seq<u8>,
}

/// Whether a mask speaks of pin `i`.
pub open spec fn speaks_of(m: u32, i: int) -> bool {
    m as int / (vstd::arithmetic::power2::pow2(i as nat) as int) % 2 == 1
}

/// The pins after a register write.
pub open spec fn after(b: Bank, w: PinWrite) -> Bank {
    match w {
        PinWrite::Pad(..) => b,
        PinWrite::Function(pin, f) => Bank { function: b.function.update(pin as int, f), ..b },
        PinWrite::Drive(m) => Bank {
            driven: Seq::new(32, |i: int| b.driven[i] || speaks_of(m, i)),
            ..b
        },
        PinWrite::Release(m) => Bank {
            driven: Seq::new(32, |i: int| b.driven[i] && !speaks_of(m, i)),
            ..b
        },
        PinWrite::Raise(m) => Bank {
            level: Seq::new(32, |i: int| b.level[i] || speaks_of(m, i)),
            ..b
        },
        PinWrite::Lower(m) => Bank {
            level: Seq::new(32, |i: int| b.level[i] && !speaks_of(m, i)),
            ..b
        },
        PinWrite::Toggle(m) => Bank {
            level: Seq::new(32, |i: int| b.level[i] != speaks_of(m, i)),
            ..b
        },
    }
}

/// The pins after some register writes.
pub open spec fn after_all(b: Bank, ws: Seq<PinWrite>) -> Bank
    decreases ws.len(),
{
    if ws.len() == 0 {
        b
    } else {
        after(after_all(b, ws.drop_last()), ws.last())
    }
}

/// A pin's mask speaks of that pin and of no other.
pub proof fn masks_speak_of_their_pin(pin: u8, i: int)
    requires
        pin <= 31,
        0 <= i < 32,
    ensures
        speaks_of(mask(pin), i) == (i == pin),
{
    let m = vstd::arithmetic::power2::pow2(pin as nat);
    let d = vstd::arithmetic::power2::pow2(i as nat);
    vstd::arithmetic::power2::lemma2_to64();
    vstd::arithmetic::power2::lemma_pow2_pos(i as nat);
    vstd::arithmetic::power2::lemma_pow2_pos(pin as nat);
    if pin < 31 {
        vstd::arithmetic::power2::lemma_pow2_strictly_increases(pin as nat, 31);
    }
    assert(mask(pin) == m);
    if i < pin {
        let e = vstd::arithmetic::power2::pow2((pin - i) as nat);
        vstd::arithmetic::power2::lemma_pow2_adds((pin - i) as nat, i as nat);
        assert(m == e * d);
        vstd::arithmetic::div_mod::lemma_div_by_multiple(e as int, d as int);
        vstd::arithmetic::power2::lemma_pow2_unfold((pin - i) as nat);
        assert(m as int / d as int == e);
        assert(e % 2 == 0);
    } else if i == pin {
        vstd::arithmetic::div_mod::lemma_div_by_self(d as int);
    } else {
        vstd::arithmetic::power2::lemma_pow2_strictly_increases(pin as nat, i as nat);
        vstd::arithmetic::div_mod::lemma_basic_div(m as int, d as int);
    }
}

/// An operation does to its pin what its name says, and nothing to any other:
/// high and low give the level, toggle turns it round, output and input drive and
/// release, and a function is the one that the pin then has.
pub proof fn operations_do_what_they_say(b: Bank, pin: u8, req: PinRequest, i: int)
    requires
        possible(pin, req),
        b.level.len() == 32,
        b.driven.len() == 32,
        b.function.len() == 32,
        0 <= i < 32,
    ensures
        ({
            let a = after_all(b, writes(pin, req));
            if i != pin {
                &&& a.level[i] == b.level[i]
                &&& a.driven[i] == b.driven[i]
                &&& a.function[i] == b.function[i]
            } else {
                match req {
                    PinRequest::Output => a.driven[i] && a.function[i] == 5,
                    PinRequest::Input => !a.driven[i] && a.function[i] == 5,
                    PinRequest::High => a.level[i],
                    PinRequest::Low => !a.level[i],
                    PinRequest::Toggle => a.level[i] == !b.level[i],
                    PinRequest::Function(f) => a.function[i] == f,
                }
            }
        }),
{
    masks_speak_of_their_pin(pin, i);
    reveal_with_fuel(after_all, 5);
    let ws = writes(pin, req);
    if ws.len() == 3 {
        assert(ws.drop_last() =~= seq![ws[0], ws[1]]);
        assert(ws.drop_last().drop_last() =~= seq![ws[0]]);
        assert(ws.drop_last().drop_last().drop_last() =~= Seq::empty());
    } else if ws.len() == 2 {
        assert(ws.drop_last() =~= seq![ws[0]]);
        assert(ws.drop_last().drop_last() =~= Seq::empty());
    } else {
        assert(ws.drop_last() =~= Seq::empty());
    }
}

/// A pin that is to be driven has its driver on, and one that is to be read has
/// its input on; an input's driver is off.
pub proof fn pads_suit_their_use(pin: u8, req: PinRequest)
    ensures
        req is Output ==> (writes(pin, req)[0] matches PinWrite::Pad(p, pad) && p == pin
            && !pad.output_off),
        req is Input ==> (writes(pin, req)[0] matches PinWrite::Pad(p, pad) && p == pin
            && pad.output_off && pad.input_on),
        req is Function ==> (writes(pin, req)[0] matches PinWrite::Pad(p, pad) && p == pin
            && !pad.output_off && pad.input_on),
{
}

} // verus!
