//! Bit-level model of POSIX read/write/execute permissions: a 3-bit class
//! (`Perm`) and the 9-bit user/group/other set (`Perms`), with conversions to
//! and from raw mode bits.

use vstd::prelude::*;

use crate::error::Error;

verus! {

/// The permission bits of a single class (user, group or other):
/// read = 4, write = 2, execute = 1.
#[derive(Clone, Copy, Debug, PartialEq, Eq, Structural)]
pub struct Perm {
    pub bits: u8,
}

/// A full 9-bit permission set, `0oUGO` with one octal digit per class.
#[derive(Clone, Copy, Debug, PartialEq, Eq, Structural)]
pub struct Perms {
    pub bits: u16,
}

/// The bits of the platform mode word this model understands; anything above
/// the lower twelve bits is ignored by conversions, anything in the upper
/// three of those twelve (sticky, setuid, setgid) is rejected.
pub const MODE_MASK: u32 = 0o7777;

/// The user class of a 9-bit permission value.
pub open spec fn user_of(bits: u16) -> u8 {
    (((bits >> 6) & 0o7) as u8)
}

/// The group class of a 9-bit permission value.
pub open spec fn group_of(bits: u16) -> u8 {
    (((bits >> 3) & 0o7) as u8)
}

/// The other class of a 9-bit permission value.
pub open spec fn other_of(bits: u16) -> u8 {
    ((bits & 0o7) as u8)
}

/// Compose the three classes back into a 9-bit permission value; each class
/// is first masked to its three low bits.
pub open spec fn join_bits(user: u8, group: u8, other: u8) -> u16 {
    ((((user & 0o7) as u16) << 6) | (((group & 0o7) as u16) << 3)) | ((other & 0o7) as u16)
}

impl Perm {
    /// A single class holds only its three low bits.
    pub open spec fn wf(self) -> bool {
        self.bits <= 0o7
    }

    /// Keep the defined bits of `bits` and drop the rest.
    pub fn from_bits_truncate(bits: u8) -> (r: Perm)
        ensures
            r.bits == bits & 0o7,
            r.wf(),
    {
        proof {
            assert(bits & 0o7 <= 0o7) by (bit_vector);
        }
        Perm { bits: bits & 0o7 }
    }

    /// Whether every bit of `other` is also set in `self`.
    pub fn contains(self, other: Perm) -> (r: bool)
        ensures
            r == (self.bits & other.bits == other.bits),
    {
        self.bits & other.bits == other.bits
    }

    /// The bitwise union of two classes.
    pub fn union(self, other: Perm) -> (r: Perm)
        ensures
            r.bits == self.bits | other.bits,
            self.wf() && other.wf() ==> r.wf(),
    {
        proof {
            let a = self.bits;
            let b = other.bits;
            assert(a <= 0o7 && b <= 0o7 ==> (a | b) <= 0o7) by (bit_vector);
        }
        Perm { bits: self.bits | other.bits }
    }
}

impl Perms {
    /// A permission set holds only its nine defined bits.
    pub open spec fn wf(self) -> bool {
        self.bits <= 0o777
    }

    /// Keep the defined bits of `bits` and drop the rest.
    pub fn from_bits_truncate(bits: u16) -> (r: Perms)
        ensures
            r.bits == bits & 0o777,
            r.wf(),
    {
        proof {
            assert(bits & 0o777 <= 0o777) by (bit_vector);
        }
        Perms { bits: bits & 0o777 }
    }

    /// Accept exactly the 9-bit values; anything with higher bits set is
    /// refused.
    pub fn from_bits(bits: u16) -> (r: Option<Perms>)
        ensures
            bits <= 0o777 ==> r == Some((Perms { bits })),
            bits > 0o777 ==> r is None,
    {
        if bits <= 0o777 {
            Some(Perms { bits })
        } else {
            None
        }
    }

    /// Interpret a raw platform mode word.  Only the lower twelve bits are
    /// considered; of those, any bit outside the nine standard
    /// read/write/execute positions (sticky, setuid, setgid) is an error.
    pub fn from_mode(mode: u32) -> (r: Result<Perms, Error>)
        ensures
            mode & 0o7777 <= 0o777 ==> r == Ok::<Perms, Error>((Perms { bits: ((mode & 0o7777) as u16) })),
            mode & 0o7777 > 0o777 ==> r == Err::<Perms, Error>(Error::InvalidPermissionBits(mode)),
    {
        let masked: u32 = mode & MODE_MASK;
        proof {
            assert(mode & 0o7777 <= 0o7777) by (bit_vector);
        }
        let bits: u16 = masked as u16;
        if bits <= 0o777 {
            Ok(Perms { bits })
        } else {
            Err(Error::InvalidPermissionBits(mode))
        }
    }

    /// The raw mode bits of this permission set.
    pub fn mode(&self) -> (r: u32)
        ensures
            r == self.bits as u32,
    {
        self.bits as u32
    }

    /// The user class.
    pub fn user(&self) -> (r: Perm)
        ensures
            r.bits == user_of(self.bits),
            r.wf(),
    {
        proof {
            let b = self.bits;
            assert((((b >> 6) & 0o7) as u8) <= 0o7) by (bit_vector);
        }
        Perm { bits: ((self.bits >> 6) & 0o7) as u8 }
    }

    /// The group class.
    pub fn group(&self) -> (r: Perm)
        ensures
            r.bits == group_of(self.bits),
            r.wf(),
    {
        proof {
            let b = self.bits;
            assert((((b >> 3) & 0o7) as u8) <= 0o7) by (bit_vector);
        }
        Perm { bits: ((self.bits >> 3) & 0o7) as u8 }
    }

    /// The other class.
    pub fn other(&self) -> (r: Perm)
        ensures
            r.bits == other_of(self.bits),
            r.wf(),
    {
        proof {
            let b = self.bits;
            assert(((b & 0o7) as u8) <= 0o7) by (bit_vector);
        }
        Perm { bits: (self.bits & 0o7) as u8 }
    }

    /// Compose a permission set from its three classes.
    pub fn from(user: Perm, group: Perm, other: Perm) -> (r: Perms)
        ensures
            r.bits == join_bits(user.bits, group.bits, other.bits),
            r.wf(),
    {
        proof {
            let u = user.bits;
            let g = group.bits;
            let o = other.bits;
            assert(((((u & 0o7) as u16) << 6) | (((g & 0o7) as u16) << 3)) | ((o & 0o7) as u16)
                <= 0o777) by (bit_vector);
        }
        Perms {
            bits: ((((user.bits & 0o7) as u16) << 6) | (((group.bits & 0o7) as u16) << 3))
                | ((other.bits & 0o7) as u16),
        }
    }

    /// The bits of `self` that are not in `other`.
    pub fn difference(self, other: Perms) -> (r: Perms)
        ensures
            r.bits == self.bits & !other.bits,
            self.wf() ==> r.wf(),
    {
        proof {
            let a = self.bits;
            let b = other.bits;
            assert(a <= 0o777 ==> (a & !b) <= 0o777) by (bit_vector);
        }
        Perms { bits: self.bits & !other.bits }
    }

    /// Apply one transformation per class and recompose the result.
    pub fn map<F1: Fn(Perm) -> Perm, F2: Fn(Perm) -> Perm, F3: Fn(Perm) -> Perm>(
        &self,
        user: F1,
        group: F2,
        other: F3,
    ) -> (r: Perms)
        requires
            call_requires(user, ((Perm { bits: user_of(self.bits) }),)),
            call_requires(group, ((Perm { bits: group_of(self.bits) }),)),
            call_requires(other, ((Perm { bits: other_of(self.bits) }),)),
        ensures
            (exists|u: Perm, g: Perm, o: Perm|
                call_ensures(user, ((Perm { bits: user_of(self.bits) }),), u)
                    && call_ensures(group, ((Perm { bits: group_of(self.bits) }),), g)
                    && call_ensures(other, ((Perm { bits: other_of(self.bits) }),), o)
                    && r.bits == join_bits(u.bits, g.bits, o.bits)),
            r.wf(),
    {
        let u = user(self.user());
        let g = group(self.group());
        let o = other(self.other());
        Perms::from(u, g, o)
    }

    /// Transform only the user class.
    pub fn map_user<F: Fn(Perm) -> Perm>(&self, f: F) -> (r: Perms)
        requires
            call_requires(f, ((Perm { bits: user_of(self.bits) }),)),
        ensures
            (exists|u: Perm|
                call_ensures(f, ((Perm { bits: user_of(self.bits) }),), u)
                    && r.bits == join_bits(u.bits, group_of(self.bits), other_of(self.bits))),
            r.wf(),
    {
        let id1 = |x: Perm| -> (y: Perm)
            ensures
                y == x,
            { x };
        let id2 = |x: Perm| -> (y: Perm)
            ensures
                y == x,
            { x };
        self.map(f, id1, id2)
    }

    /// Transform only the group class.
    pub fn map_group<F: Fn(Perm) -> Perm>(&self, f: F) -> (r: Perms)
        requires
            call_requires(f, ((Perm { bits: group_of(self.bits) }),)),
        ensures
            (exists|g: Perm|
                call_ensures(f, ((Perm { bits: group_of(self.bits) }),), g)
                    && r.bits == join_bits(user_of(self.bits), g.bits, other_of(self.bits))),
            r.wf(),
    {
        let id1 = |x: Perm| -> (y: Perm)
            ensures
                y == x,
            { x };
        let id2 = |x: Perm| -> (y: Perm)
            ensures
                y == x,
            { x };
        self.map(id1, f, id2)
    }

    /// Transform only the other class.
    pub fn map_other<F: Fn(Perm) -> Perm>(&self, f: F) -> (r: Perms)
        requires
            call_requires(f, ((Perm { bits: other_of(self.bits) }),)),
        ensures
            (exists|o: Perm|
                call_ensures(f, ((Perm { bits: other_of(self.bits) }),), o)
                    && r.bits == join_bits(user_of(self.bits), group_of(self.bits), o.bits)),
            r.wf(),
    {
        let id1 = |x: Perm| -> (y: Perm)
            ensures
                y == x,
            { x };
        let id2 = |x: Perm| -> (y: Perm)
            ensures
                y == x,
            { x };
        self.map(id1, id2, f)
    }
}

/// Splitting a 9-bit permission value into its three classes and recomposing
/// them yields the value back, for every value in the 9-bit space.
pub proof fn lemma_perms_round_trip(bits: u16)
    requires
        bits <= 0o777,
    ensures
        join_bits(user_of(bits), group_of(bits), other_of(bits)) == bits,
{
    assert(join_bits(user_of(bits), group_of(bits), other_of(bits)) == bits) by (bit_vector)
        requires
            bits <= 0o777,
    ;
}

/// Composing three classes and extracting them again yields each class back,
/// for every triple of 3-bit class values.
pub proof fn lemma_classes_round_trip(user: u8, group: u8, other: u8)
    requires
        user <= 0o7,
        group <= 0o7,
        other <= 0o7,
    ensures
        user_of(join_bits(user, group, other)) == user,
        group_of(join_bits(user, group, other)) == group,
        other_of(join_bits(user, group, other)) == other,
{
    assert(user_of(join_bits(user, group, other)) == user
        && group_of(join_bits(user, group, other)) == group
        && other_of(join_bits(user, group, other)) == other) by (bit_vector)
        requires
            user <= 0o7 && group <= 0o7 && other <= 0o7,
    ;
}

} // verus!
