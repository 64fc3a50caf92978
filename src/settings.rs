use vstd::prelude::*;

verus! {

/// The byte order of the size prefix.
#[derive(Clone, Copy, Debug, PartialEq, Eq, Structural)]
pub enum ByteOrder {
    /// Least significant byte first.
    LittleEndian,
    /// Most significant byte first.
    BigEndian,
}

/// Settings shared by every framing operation of a connection.
#[derive(Clone, Copy, Debug, PartialEq, Eq, Structural)]
pub struct Settings {
    pub byte_order: ByteOrder,
}

impl Settings {
    /// Settings with a big-endian size prefix, the usual network order.
    pub fn new() -> (r: Settings)
        ensures
            r.byte_order == ByteOrder::BigEndian,
    {
        Settings { byte_order: ByteOrder::BigEndian }
    }

    /// Settings with the given byte order.
    pub fn with_byte_order(byte_order: ByteOrder) -> (r: Settings)
        ensures
            r.byte_order == byte_order,
    {
        Settings { byte_order }
    }
}

} // verus!
