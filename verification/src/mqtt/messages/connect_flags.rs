use vstd::prelude::*;

verus! {

/// The connect flags byte of a CONNECT packet, bit by bit from the most
/// significant: user name, password, will retain, will QoS (two bits), will
/// flag, clean session, reserved.
#[derive(Debug, PartialEq, Eq, Clone, Copy, Structural)]
pub struct ConnectFlags {
    pub username_flag: bool,
    pub password_flag: bool,
    pub will_retain: bool,
    pub will_qos: u8,
    pub will_flag: bool,
    pub clean_session: bool,
    pub reserved: bool,
}

/// 1 for true, 0 for false.
pub open spec fn bit(b: bool) -> int {
    if b {
        1
    } else {
        0
    }
}

/// The byte that `f` is sent as; only the two low bits of the will QoS are kept.
pub open spec fn connect_flags_byte(f: ConnectFlags) -> u8 {
    (bit(f.username_flag) * 128 + bit(f.password_flag) * 64 + bit(f.will_retain) * 32 + (f.will_qos
        % 4) * 8 + bit(f.will_flag) * 4 + bit(f.clean_session) * 2 + bit(f.reserved)) as u8
}

/// The flags that the byte `b` holds.
pub open spec fn connect_flags_from_byte(b: u8) -> ConnectFlags {
    ConnectFlags {
        username_flag: (b / 128) % 2 == 1,
        password_flag: (b / 64) % 2 == 1,
        will_retain: (b / 32) % 2 == 1,
        will_qos: ((b / 8) % 4) as u8,
        will_flag: (b / 4) % 2 == 1,
        clean_session: (b / 2) % 2 == 1,
        reserved: b % 2 == 1,
    }
}

impl ConnectFlags {
    /// The connect flags byte.
    pub fn to_byte(&self) -> (b: u8)
        ensures
            b == connect_flags_byte(*self),
    {
        let mut b: u8 = 0;
        if self.username_flag {
            b = b + 128;
        }
        if self.password_flag {
            b = b + 64;
        }
        if self.will_retain {
            b = b + 32;
        }
        b = b + (self.will_qos % 4) * 8;
        if self.will_flag {
            b = b + 4;
        }
        if self.clean_session {
            b = b + 2;
        }
        if self.reserved {
            b = b + 1;
        }
        b
    }

    /// The flags that a connect flags byte holds.
    pub fn from_byte(b: u8) -> (f: ConnectFlags)
        ensures
            f == connect_flags_from_byte(b),
    {
        ConnectFlags {
            username_flag: (b / 128) % 2 == 1,
            password_flag: (b / 64) % 2 == 1,
            will_retain: (b / 32) % 2 == 1,
            will_qos: (b / 8) % 4,
            will_flag: (b / 4) % 2 == 1,
            clean_session: (b / 2) % 2 == 1,
            reserved: b % 2 == 1,
        }
    }
}

/// Flags whose will QoS fits in two bits are read back unchanged from their byte.
pub proof fn lemma_connect_flags_roundtrip(f: ConnectFlags)
    requires
        f.will_qos < 4,
    ensures
        connect_flags_from_byte(connect_flags_byte(f)) == f,
{
}

/// Every byte is the byte of the flags it holds.
pub proof fn lemma_connect_flags_byte_roundtrip(b: u8)
    ensures
        connect_flags_byte(connect_flags_from_byte(b)) == b,
{
    assert(b == (b / 128 % 2) * 128 + (b / 64 % 2) * 64 + (b / 32 % 2) * 32 + (b / 8 % 4) * 8 + (b
        / 4 % 2) * 4 + (b / 2 % 2) * 2 + b % 2) by (bit_vector);
    assert(b / 128 % 2 < 2 && b / 64 % 2 < 2 && b / 32 % 2 < 2 && b / 8 % 4 < 4 && b / 4 % 2 < 2
        && b / 2 % 2 < 2 && b % 2 < 2) by (bit_vector);
}

} // verus!
