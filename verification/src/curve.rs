//! The fan curve: eight points, each a temperature and a fan speed.

use vstd::prelude::*;

verus! {

/// Eight (temperature, speed) points, held as sixteen bytes: byte `i` is the
/// temperature of point `i`, byte `i + 8` its speed.
#[derive(Debug, Clone, Copy, PartialEq, Eq)]
pub struct Curve {
    curve: [u8; 16],
}

/// The bytes of the curve that the vendor ships.
pub open spec fn default_bytes() -> Seq<u8> {
    seq![
        0x1eu8, 0x2du8, 0x32u8, 0x3cu8,
        0x46u8, 0x50u8, 0x5au8, 0x64u8,
        0x12u8, 0x12u8, 0x12u8, 0x20u8,
        0x30u8, 0x40u8, 0x64u8, 0x64u8,
    ]
}

impl View for Curve {
    type V = Seq<u8>;

    /// The sixteen bytes, temperatures first.
    closed spec fn view(&self) -> Seq<u8> {
        self.curve@
    }
}

impl Curve {
    /// The temperature of point `i`.
    pub open spec fn temperature(&self, i: int) -> u8
        recommends
            0 <= i < 8,
    {
        self@[i]
    }

    /// The speed of point `i`.
    pub open spec fn speed(&self, i: int) -> u8
        recommends
            0 <= i < 8,
    {
        self@[i + 8]
    }

    /// A curve has sixteen bytes.
    pub proof fn lemma_len(&self)
        ensures
            self@.len() == 16,
    {
    }

    /// The vendor's curve.
    pub fn new() -> (r: Curve)
        ensures
            r@ == default_bytes(),
    {
        let r = Curve {
            curve: [
                0x1e, 0x2d, 0x32, 0x3c,
                0x46, 0x50, 0x5a, 0x64,
                0x12, 0x12, 0x12, 0x20,
                0x30, 0x40, 0x64, 0x64,
            ],
        };
        assert(r@ =~= default_bytes());
        r
    }

    /// The curve with the given bytes, temperatures first.
    pub fn from_bytes(bytes: [u8; 16]) -> (r: Curve)
        ensures
            r@ == bytes@,
    {
        Curve { curve: bytes }
    }

    /// The curve's bytes, temperatures first.
    pub fn bytes(&self) -> (r: [u8; 16])
        ensures
            r@ == self@,
    {
        self.curve
    }

    /// Point `n`: its temperature and its speed.
    pub fn point(&self, n: u8) -> (r: (u8, u8))
        requires
            n <= 7,
        ensures
            r == (self.temperature(n as int), self.speed(n as int)),
    {
        (self.curve[n as usize], self.curve[n as usize + 8])
    }

    /// Sets a point on the fan curve: `temp` in degrees Celsius, `speed`
    /// roughly in percent. Nothing is asked of the two values, and no other
    /// point changes.
    pub fn set_point(&mut self, n: u8, temp: u8, speed: u8)
        requires
            n <= 7,
        ensures
            final(self)@ == old(self)@.update(n as int, temp).update(n + 8, speed),
            final(self).temperature(n as int) == temp,
            final(self).speed(n as int) == speed,
            forall|i: int|
                0 <= i < 8 && i != n ==> final(self).temperature(i) == old(self).temperature(i)
                    && final(self).speed(i) == old(self).speed(i),
    {
        let n = n as usize;
        self.curve[n] = temp;
        self.curve[n + 8] = speed;
    }
}

} // verus!
