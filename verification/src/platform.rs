//! The numbers of the system that requests and replies carry, and in which byte
//! order it keeps them.
use vstd::prelude::*;

use crate::bytes::{le, number, ByteOrder};

verus! {

/// What differs from one system to another.
#[derive(Clone, Copy, Debug, PartialEq, Eq, Structural)]
pub struct Platform {
    /// The error of a call that would have had to wait.
    pub eagain: i32,
    /// Marks a descriptor that a new program does not inherit.
    pub o_cloexec: i32,
    /// Marks a descriptor that can be read and written.
    pub o_rdwr: i32,
    /// Marks a descriptor on which no call waits.
    pub o_nonblock: i32,
    /// The order in which numbers stand in memory, and so in what is exchanged with
    /// the host and read of the card.
    pub byte_order: ByteOrder,
}

/// A number that a unix system has for `EAGAIN`.
pub open spec fn is_eagain(code: i32) -> bool {
    ||| code == 6
    ||| code == 11
    ||| code == 35
    ||| code == 1_073_741_859
    ||| code == -2_147_483_637
}

/// A number that a unix system has for `O_CLOEXEC`.
pub open spec fn is_o_cloexec(flag: i32) -> bool {
    ||| flag == 0x40
    ||| flag == 0x100
    ||| flag == 0x2000
    ||| flag == 0x1_0000
    ||| flag == 0x2_0000
    ||| flag == 0x4_0000
    ||| flag == 0x8_0000
    ||| flag == 0x10_0000
    ||| flag == 0x40_0000
    ||| flag == 0x80_0000
    ||| flag == 0x100_0000
}

/// A number that a unix system has for `O_RDWR`.
pub open spec fn is_o_rdwr(flag: i32) -> bool {
    ||| flag == 2
    ||| flag == 3
    ||| flag == 0x3_0000
}

/// A number that a unix system has for `O_NONBLOCK`.
pub open spec fn is_o_nonblock(flag: i32) -> bool {
    ||| flag == 4
    ||| flag == 8
    ||| flag == 0x10
    ||| flag == 0x80
    ||| flag == 0x800
    ||| flag == 0x4000
    ||| flag == 0x4_0000
}

/// The constant `nix::libc::EAGAIN`. Claimed is that it is one of the numbers that
/// `libc` gives it on unix systems, the only ones that `nix` is for. Which of
/// them it is depends on the system that the crate is built for, and is left
/// unsaid.
#[verifier::external_body]
fn eagain() -> (code: i32)
    ensures
        is_eagain(code),
{
    nix::libc::EAGAIN
}

/// The constant `nix::libc::O_CLOEXEC`. Claimed is that it is one of the numbers that
/// `libc` gives it on unix systems, the only ones that `nix` is for. Which of
/// them it is depends on the system that the crate is built for, and is left
/// unsaid.
#[verifier::external_body]
fn o_cloexec() -> (flag: i32)
    ensures
        is_o_cloexec(flag),
{
    nix::libc::O_CLOEXEC
}

/// The constant `nix::libc::O_RDWR`. Claimed is that it is one of the numbers that
/// `libc` gives it on unix systems, the only ones that `nix` is for. Which of
/// them it is depends on the system that the crate is built for, and is left
/// unsaid.
#[verifier::external_body]
fn o_rdwr() -> (flag: i32)
    ensures
        is_o_rdwr(flag),
{
    nix::libc::O_RDWR
}

/// The constant `nix::libc::O_NONBLOCK`. Claimed is that it is one of the numbers that
/// `libc` gives it on unix systems, the only ones that `nix` is for. Which of
/// them it is depends on the system that the crate is built for, and is left
/// unsaid.
#[verifier::external_body]
fn o_nonblock() -> (flag: i32)
    ensures
        is_o_nonblock(flag),
{
    nix::libc::O_NONBLOCK
}

/// The function `u16::to_ne_bytes` of std. Claimed is that the bytes are those of
/// `x` in one of the two byte orders. Which of them it is depends on the machine
/// that the crate is built for, and is left unsaid.
#[verifier::external_body]
fn native_bytes(x: u16) -> (bytes: [u8; 2])
    ensures
        bytes@ == number(ByteOrder::Little, x as nat, 2) || bytes@ == number(
            ByteOrder::Big,
            x as nat,
            2,
        ),
{
    x.to_ne_bytes()
}

impl ByteOrder {
    /// The order in which these are the bytes of one.
    pub fn of_one(bytes: [u8; 2]) -> (order: ByteOrder)
        requires
            bytes@ == number(ByteOrder::Little, 1, 2) || bytes@ == number(ByteOrder::Big, 1, 2),
        ensures
            bytes@ == number(order, 1, 2),
    {
        proof {
            lemma_bytes_of_one();
        }
        if bytes[0] == 1 {
            ByteOrder::Little
        } else {
            ByteOrder::Big
        }
    }
}

/// The two bytes of one tell the byte orders apart.
pub proof fn lemma_bytes_of_one()
    ensures
        number(ByteOrder::Little, 1, 2) == seq![1u8, 0u8],
        number(ByteOrder::Big, 1, 2) == seq![0u8, 1u8],
{
    reveal_with_fuel(le, 3);
    assert(le(1, 2) =~= seq![1u8, 0u8]);
    assert(number(ByteOrder::Big, 1, 2) =~= seq![0u8, 1u8]);
}

impl Platform {
    /// The numbers are those of a unix system, each in its place.
    pub open spec fn usable(self) -> bool {
        &&& is_eagain(self.eagain)
        &&& is_o_cloexec(self.o_cloexec)
        &&& is_o_rdwr(self.o_rdwr)
        &&& is_o_nonblock(self.o_nonblock)
    }

    /// The numbers of the system that the crate is built for.
    pub fn current() -> (platform: Platform)
        ensures
            platform.usable(),
    {
        Platform {
            eagain: eagain(),
            o_cloexec: o_cloexec(),
            o_rdwr: o_rdwr(),
            o_nonblock: o_nonblock(),
            byte_order: ByteOrder::of_one(native_bytes(1)),
        }
    }

    /// Whether a waiting call was cut short and has to be made again.
    pub open spec fn spec_waits(self, status: i32) -> bool {
        status == -self.eagain
    }

    /// Whether a waiting call was cut short and has to be made again.
    pub fn waits(&self, status: i32) -> (again: bool)
        ensures
            again == self.spec_waits(status),
    {
        (status as i64) == -(self.eagain as i64)
    }

    /// The flags of a descriptor for shared memory.
    pub open spec fn spec_export_flags(self) -> u32 {
        (self.o_cloexec as u32) | (self.o_rdwr as u32)
    }

    /// The flags of a descriptor for shared memory.
    pub fn export_flags(&self) -> (flags: u32)
        ensures
            flags == self.spec_export_flags(),
    {
        #[verifier::truncate]
        let cloexec: u32 = self.o_cloexec as u32;
        #[verifier::truncate]
        let rdwr: u32 = self.o_rdwr as u32;
        cloexec | rdwr
    }
}

} // verus!
