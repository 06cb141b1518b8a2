//! Four 64-bit limbs, least significant first: the plain form in which field
//! elements are held, compared and written out as bytes.

use vstd::prelude::*;

verus! {

/// The number that four little-endian limbs stand for.
pub open spec fn limbs_value(l0: u64, l1: u64, l2: u64, l3: u64) -> nat {
    (l0 as nat) + 0x1_0000_0000_0000_0000nat * ((l1 as nat) + 0x1_0000_0000_0000_0000nat * ((l2 as nat)
        + 0x1_0000_0000_0000_0000nat * (l3 as nat)))
}

/// The eight little-endian bytes of a number below `2^64`.
#[verifier::opaque]
pub open spec fn le_bytes8(x: nat) -> Seq<u8> {
    seq![
        (x % 256) as u8,
        (x / 0x100 % 256) as u8,
        (x / 0x1_0000 % 256) as u8,
        (x / 0x100_0000 % 256) as u8,
        (x / 0x1_0000_0000 % 256) as u8,
        (x / 0x100_0000_0000 % 256) as u8,
        (x / 0x1_0000_0000_0000 % 256) as u8,
        (x / 0x100_0000_0000_0000 % 256) as u8,
    ]
}

/// The 32 little-endian bytes of a number below `2^256`.
pub open spec fn le_bytes32(v: nat) -> Seq<u8> {
    le_bytes8(v % 0x1_0000_0000_0000_0000nat) + le_bytes8(v / 0x1_0000_0000_0000_0000nat % 0x1_0000_0000_0000_0000nat)
        + le_bytes8(
        v / 0x1_0000_0000_0000_0000nat / 0x1_0000_0000_0000_0000nat % 0x1_0000_0000_0000_0000nat,
    ) + le_bytes8(
        v / 0x1_0000_0000_0000_0000nat / 0x1_0000_0000_0000_0000nat / 0x1_0000_0000_0000_0000nat
            % 0x1_0000_0000_0000_0000nat,
    )
}

pub proof fn lemma_le_bytes8_len(x: nat)
    ensures
        le_bytes8(x).len() == 8,
{
    reveal(le_bytes8);
}

pub proof fn lemma_le_bytes32_len(v: nat)
    ensures
        le_bytes32(v).len() == 32,
{
    lemma_le_bytes8_len(v % 0x1_0000_0000_0000_0000nat);
    lemma_le_bytes8_len(v / 0x1_0000_0000_0000_0000nat % 0x1_0000_0000_0000_0000nat);
    lemma_le_bytes8_len(
        v / 0x1_0000_0000_0000_0000nat / 0x1_0000_0000_0000_0000nat % 0x1_0000_0000_0000_0000nat,
    );
    lemma_le_bytes8_len(
        v / 0x1_0000_0000_0000_0000nat / 0x1_0000_0000_0000_0000nat / 0x1_0000_0000_0000_0000nat
            % 0x1_0000_0000_0000_0000nat,
    );
}

/// The number that a little-endian byte string stands for.
pub open spec fn le_value(bytes: Seq<u8>) -> nat
    decreases bytes.len(),
{
    if bytes.len() == 0 {
        0
    } else {
        (bytes[0] as nat) + 256 * le_value(bytes.drop_first())
    }
}

/// An unsigned 256-bit number as four limbs, least significant first.
#[derive(Clone, Copy, Debug, PartialEq, Eq)]
pub struct U256 {
    pub limbs: [u64; 4],
}

impl View for U256 {
    type V = nat;

    open spec fn view(&self) -> nat {
        limbs_value(self.limbs[0], self.limbs[1], self.limbs[2], self.limbs[3])
    }
}

/// Two limb quadruples that stand for one number are the same quadruple.
pub proof fn lemma_limbs_unique(a: U256, b: U256)
    requires
        a@ == b@,
    ensures
        a == b,
{
    lemma_limb_digits(a);
    lemma_limb_digits(b);
    assert(a.limbs =~= b.limbs);
}

/// Dividing by the limb weight peels the limbs off one by one.
pub proof fn lemma_limb_digits(a: U256)
    ensures
        a@ % 0x1_0000_0000_0000_0000nat == a.limbs[0] as nat,
        a@ / 0x1_0000_0000_0000_0000nat % 0x1_0000_0000_0000_0000nat == a.limbs[1] as nat,
        a@ / 0x1_0000_0000_0000_0000nat / 0x1_0000_0000_0000_0000nat % 0x1_0000_0000_0000_0000nat
            == a.limbs[2] as nat,
        a@ / 0x1_0000_0000_0000_0000nat / 0x1_0000_0000_0000_0000nat / 0x1_0000_0000_0000_0000nat
            % 0x1_0000_0000_0000_0000nat == a.limbs[3] as nat,
{
    let b = 0x1_0000_0000_0000_0000int;
    let r3 = a.limbs[3] as int;
    let r2 = a.limbs[2] as int + b * r3;
    let r1 = a.limbs[1] as int + b * r2;
    let v = a.limbs[0] as int + b * r1;
    assert(v == a@ as int);
    vstd::arithmetic::div_mod::lemma_fundamental_div_mod_converse(v, b, r1, a.limbs[0] as int);
    vstd::arithmetic::div_mod::lemma_fundamental_div_mod_converse(r1, b, r2, a.limbs[1] as int);
    vstd::arithmetic::div_mod::lemma_fundamental_div_mod_converse(r2, b, r3, a.limbs[2] as int);
    vstd::arithmetic::div_mod::lemma_fundamental_div_mod_converse(r3, b, 0, a.limbs[3] as int);
}

fn push_le_bytes8(out: &mut Vec<u8>, x: u64)
    ensures
        final(out)@ == old(out)@ + le_bytes8(x as nat),
{
    out.push((x % 256) as u8);
    out.push((x / 0x100 % 256) as u8);
    out.push((x / 0x1_0000 % 256) as u8);
    out.push((x / 0x100_0000 % 256) as u8);
    out.push((x / 0x1_0000_0000 % 256) as u8);
    out.push((x / 0x100_0000_0000 % 256) as u8);
    out.push((x / 0x1_0000_0000_0000 % 256) as u8);
    out.push((x / 0x100_0000_0000_0000 % 256) as u8);
    proof {
        reveal(le_bytes8);
        assert(out@ =~= old(out)@ + le_bytes8(x as nat));
    }
}

impl U256 {
    pub fn new(l0: u64, l1: u64, l2: u64, l3: u64) -> (r: U256)
        ensures
            r@ == limbs_value(l0, l1, l2, l3),
    {
        U256 { limbs: [l0, l1, l2, l3] }
    }

    /// Whether both stand for one number.
    pub fn equals(&self, other: &U256) -> (r: bool)
        ensures
            r == (self@ == other@),
            r == (*self == *other),
    {
        proof {
            if self@ == other@ {
                lemma_limbs_unique(*self, *other);
            }
        }
        self.limbs[0] == other.limbs[0] && self.limbs[1] == other.limbs[1] && self.limbs[2]
            == other.limbs[2] && self.limbs[3] == other.limbs[3]
    }

    /// Whether `self` stands for a smaller number than `other`.
    pub fn lt(&self, other: &U256) -> (r: bool)
        ensures
            r == (self@ < other@),
    {
        if self.limbs[3] != other.limbs[3] {
            self.limbs[3] < other.limbs[3]
        } else if self.limbs[2] != other.limbs[2] {
            self.limbs[2] < other.limbs[2]
        } else if self.limbs[1] != other.limbs[1] {
            self.limbs[1] < other.limbs[1]
        } else {
            self.limbs[0] < other.limbs[0]
        }
    }

    /// Appends the 32 little-endian bytes of `self` to `out`.
    pub fn append_le_bytes(&self, out: &mut Vec<u8>)
        ensures
            final(out)@ == old(out)@ + le_bytes32(self@),
    {
        push_le_bytes8(out, self.limbs[0]);
        push_le_bytes8(out, self.limbs[1]);
        push_le_bytes8(out, self.limbs[2]);
        push_le_bytes8(out, self.limbs[3]);
        proof {
            let v = self@;
            lemma_limb_digits(*self);
            assert(out@ =~= old(out)@ + le_bytes32(v));
        }
    }
}

} // verus!
