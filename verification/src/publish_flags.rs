use vstd::prelude::*;
use crate::mqtt::mqtt_utils::mqtt_error::MqttError;

verus! {

/// The flags of a PUBLISH packet. With the packet type (always 3) they form
/// the packet's first byte: `| 0011 | dup | qos qos | retain |`.
#[derive(Debug, PartialEq, Eq, Clone, Copy, Structural)]
pub struct PublishFlags {
    pub dup: u8,
    pub qos: u8,
    pub retain: u8,
}

/// The flags byte that `f` is sent as.
pub open spec fn flags_byte(f: PublishFlags) -> u8 {
    0x30u8 | (f.dup << 3u8) | (f.qos << 1u8) | f.retain
}

/// What reading the flags byte `b` gives.
pub open spec fn flags_from_byte(b: u8) -> Result<PublishFlags, MqttError> {
    if (b & 0xF0u8) >> 4u8 != 3 {
        Err(MqttError::InvalidPublishType)
    } else {
        Ok(PublishFlags { dup: (b & 0x08u8) >> 3u8, qos: (b & 0x06u8) >> 1u8, retain: b & 0x01u8 })
    }
}

impl PublishFlags {
    /// Flags whose fields fit in their bits: dup and retain are 0 or 1, qos is below 4.
    pub open spec fn fits_in_byte(self) -> bool {
        self.dup <= 1 && self.qos <= 3 && self.retain <= 1
    }

    /// Builds the flags of a PUBLISH packet; refuses dup or retain above 1 and qos above 2.
    pub fn new(dup: u8, qos: u8, retain: u8) -> (r: Result<Self, MqttError>)
        ensures
            (dup > 1 || qos > 2 || retain > 1) ==> r == Err::<Self, MqttError>(MqttError::InvalidPublishFlags),
            !(dup > 1 || qos > 2 || retain > 1) ==> r == Ok::<Self, MqttError>(PublishFlags { dup, qos, retain }),
    {
        if dup > 1 || qos > 2 || retain > 1 {
            return Err(MqttError::InvalidPublishFlags);
        }
        Ok(PublishFlags { dup, qos, retain })
    }

    /// The first byte of a PUBLISH packet with these flags.
    pub fn to_flags_byte(&self) -> (b: u8)
        ensures
            b == flags_byte(*self),
    {
        let mut byte_de_flags: u8 = 0;
        let tipo: u8 = 3 << 4;
        byte_de_flags = byte_de_flags | tipo;
        byte_de_flags = byte_de_flags | (self.dup << 3);
        byte_de_flags = byte_de_flags | (self.qos << 1);
        byte_de_flags = byte_de_flags | self.retain;
        let (d, q, r) = (self.dup, self.qos, self.retain);
        assert((((0u8 | (3u8 << 4u8)) | (d << 3u8)) | (q << 1u8)) | r == 0x30u8 | (d << 3u8) | (q << 1u8) | r) by (bit_vector);
        byte_de_flags
    }

    /// Reads the flags from the first byte of a PUBLISH packet; refuses a byte
    /// whose packet type is not 3.
    pub fn from_flags_byte(byte_de_flags: &u8) -> (r: Result<PublishFlags, MqttError>)
        ensures
            r == flags_from_byte(*byte_de_flags),
    {
        let b = *byte_de_flags;
        let retain = b & 0b0000_0001;
        let qos = (b & 0b0000_0110) >> 1;
        let dup = (b & 0b0000_1000) >> 3;
        let tipo = (b & 0b1111_0000) >> 4;
        if tipo != 3 {
            return Err(MqttError::InvalidPublishType);
        }
        Ok(PublishFlags { dup, qos, retain })
    }

    /// The quality of service level.
    pub fn get_qos(&self) -> (q: u8)
        ensures
            q == self.qos,
    {
        self.qos
    }

    /// Whether the quality of service level is 1 or more.
    pub fn is_qos_greater_than_0(&self) -> (b: bool)
        ensures
            b == (self.qos > 0),
    {
        self.qos > 0
    }
}

/// Reading the byte that flags are written as gives the same flags back.
pub proof fn lemma_flags_roundtrip(f: PublishFlags)
    requires
        f.fits_in_byte(),
    ensures
        flags_from_byte(flags_byte(f)) == Ok::<PublishFlags, MqttError>(f),
{
    let (d, q, r) = (f.dup, f.qos, f.retain);
    assert(d <= 1 && q <= 3 && r <= 1 ==> {
        let b = 0x30u8 | (d << 3u8) | (q << 1u8) | r;
        &&& (b & 0xF0u8) >> 4u8 == 3
        &&& (b & 0x08u8) >> 3u8 == d
        &&& (b & 0x06u8) >> 1u8 == q
        &&& b & 0x01u8 == r
    }) by (bit_vector);
}

/// A byte that reads as publish flags is exactly the byte those flags are written as.
pub proof fn lemma_flags_byte_roundtrip(b: u8)
    requires
        flags_from_byte(b) is Ok,
    ensures
        flags_from_byte(b) matches Ok(f) && f.fits_in_byte() && flags_byte(f) == b,
{
    assert((b & 0xF0u8) >> 4u8 == 3 ==> {
        let d = (b & 0x08u8) >> 3u8;
        let q = (b & 0x06u8) >> 1u8;
        let r = b & 0x01u8;
        &&& d <= 1 && q <= 3 && r <= 1
        &&& 0x30u8 | (d << 3u8) | (q << 1u8) | r == b
    }) by (bit_vector);
}

} // verus!
