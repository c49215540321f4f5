//! Plain-value forms of the parameters exchanged with a controller.

use vstd::prelude::*;

verus! {

/// Largest connection handle a controller may assign.
pub const MAX_CONN_HANDLE: u16 = 0x0eff;

/// A non-success status code reported by a controller.
#[derive(Debug, Clone, Copy, PartialEq, Eq, Structural)]
pub struct HciError {
    code: u8,
}

impl HciError {
    /// The status code; never zero.
    pub closed spec fn code(self) -> u8 {
        self.code
    }

    /// The error for a status code, or `None` for the success code zero.
    pub fn from_status(status: u8) -> (r: Option<Self>)
        ensures
            status == 0 <==> r is None,
            r matches Some(e) ==> e.code() == status,
    {
        if status == 0 {
            None
        } else {
            Some(HciError { code: status })
        }
    }

    /// The status code.
    pub fn to_status(&self) -> (r: u8)
        ensures
            r == self.code(),
    {
        self.code
    }
}

/// The kind of a device address.
#[derive(Debug, Clone, Copy, PartialEq, Eq, Structural)]
pub struct AddrKind(pub u8);

impl AddrKind {
    /// A public device address.
    pub fn public() -> (r: Self)
        ensures
            r == AddrKind(0),
    {
        AddrKind(0)
    }

    /// A random device address.
    pub fn random() -> (r: Self)
        ensures
            r == AddrKind(1),
    {
        AddrKind(1)
    }

    /// The numeric kind.
    pub fn into_inner(self) -> (r: u8)
        ensures
            r == self.0,
    {
        self.0
    }
}

/// A 48-bit device address, least significant byte first.
#[derive(Debug, Clone, Copy, PartialEq, Eq)]
pub struct BdAddr(pub [u8; 6]);

impl View for BdAddr {
    type V = Seq<u8>;

    open spec fn view(&self) -> Seq<u8> {
        self.0@
    }
}

impl BdAddr {
    /// Wraps the six bytes of an address.
    pub fn new(val: [u8; 6]) -> (r: Self)
        ensures
            r.0 == val,
    {
        BdAddr(val)
    }

    /// The six bytes of the address.
    pub fn into_inner(self) -> (r: [u8; 6])
        ensures
            r == self.0,
    {
        self.0
    }

    /// Whether two addresses hold the same bytes.
    pub fn same(&self, other: &BdAddr) -> (r: bool)
        ensures
            r == (self@ == other@),
    {
        let mut i: usize = 0;
        while i < 6
            invariant
                i <= 6,
                forall|j: int| 0 <= j < i ==> self.0@[j] == other.0@[j],
            decreases 6 - i,
        {
            if self.0[i] != other.0[i] {
                return false;
            }
            i += 1;
        }
        assert(self.0@ =~= other.0@);
        true
    }
}

/// A connection handle assigned by the controller.
#[derive(Debug, Clone, Copy, PartialEq, Eq, Structural)]
pub struct ConnHandle {
    raw: u16,
}

impl View for ConnHandle {
    type V = u16;

    closed spec fn view(&self) -> u16 {
        self.raw
    }
}

impl ConnHandle {
    /// The handle with the given number.
    pub fn new(val: u16) -> (r: Self)
        requires
            val <= MAX_CONN_HANDLE,
        ensures
            r@ == val,
    {
        ConnHandle { raw: val }
    }

    /// The handle's number.
    pub fn raw(&self) -> (r: u16)
        ensures
            r == self@,
    {
        self.raw
    }
}

/// The role of the local device in a connection.
#[derive(Debug, Clone, Copy, PartialEq, Eq, Structural)]
pub enum LeConnRole {
    /// The local device initiated the connection.
    Central,
    /// The local device accepted the connection.
    Peripheral,
}

} // verus!
