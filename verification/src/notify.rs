//! Where to report to the service manager that the table is served.

use vstd::prelude::*;

use crate::error::{Error, ErrorKind};

verus! {

/// What is reported.
pub const READY: &'static str = "READY=1";

/// The address of a socket: a name of its own kind, or a path.
#[derive(Debug)]
pub enum Address {
    Abstract(Vec<u8>),
    Path(Vec<u8>),
}

/// The value of an [`Address`].
pub enum AddressView {
    Abstract(Seq<u8>),
    Path(Seq<u8>),
}

impl View for Address {
    type V = AddressView;

    open spec fn view(&self) -> AddressView {
        match *self {
            Address::Abstract(name) => AddressView::Abstract(name@),
            Address::Path(path) => AddressView::Path(path@),
        }
    }
}

/// The address that the service manager hands over as these bytes, if they are
/// one: an at sign and a name, or an absolute path.
pub open spec fn address_in(socket: Seq<u8>) -> Option<AddressView> {
    if socket.len() > 1 && socket[0] == 0x40 {
        Some(AddressView::Abstract(socket.skip(1)))
    } else if socket.len() > 0 && socket[0] == 0x2f {
        Some(AddressView::Path(socket))
    } else {
        None
    }
}

/// The address that the service manager hands over as these bytes.
pub fn address(socket: &Vec<u8>) -> (address: Result<Address, Error>)
    ensures
        match address {
            Ok(address) => address_in(socket@) == Some(address@),
            Err(error) => address_in(socket@) is None && error@ == (crate::error::Report {
                kind: ErrorKind::InvalidInput,
                message: "NOTIFY_SOCKET is neither an absolute path nor an abstract name"@,
            }),
        },
{
    if socket.len() > 1 && socket[0] == 0x40 {
        let mut name: Vec<u8> = Vec::new();
        let mut i: usize = 1;
        while i < socket.len()
            invariant
                1 <= i <= socket@.len(),
                name@ == socket@.subrange(1, i as int),
            decreases socket@.len() - i,
        {
            name.push(socket[i]);
            assert(name@ =~= socket@.subrange(1, i + 1));
            i = i + 1;
        }
        assert(name@ =~= socket@.skip(1));
        return Ok(Address::Abstract(name));
    }
    if socket.len() > 0 && socket[0] == 0x2f {
        let path: Vec<u8> = socket.clone();
        assert(path@ =~= socket@);
        return Ok(Address::Path(path));
    }
    Err(
        Error {
            kind: ErrorKind::InvalidInput,
            message: "NOTIFY_SOCKET is neither an absolute path nor an abstract name".to_owned(),
        },
    )
}

} // verus!
