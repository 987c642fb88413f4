//! What clients and servers agree on to find each other.

use vstd::prelude::*;

verus! {

/// What a client sends to ask who is there.
pub const MAGIC: [u8; 15] = [
    85,
    83,
    66,
    73,
    80,
    95,
    68,
    73,
    83,
    67,
    79,
    86,
    69,
    82,
    10,
];

/// The port on which servers are asked.
pub const DISCOVERY_PORT: u16 = 3240;

/// The request is the line `USBIP_DISCOVER`.
pub proof fn magic_is_the_request_line()
    ensures
        MAGIC@.len() == "USBIP_DISCOVER\n"@.len(),
        forall|i: int| 0 <= i < MAGIC@.len() ==> #[trigger] MAGIC@[i] as char == "USBIP_DISCOVER\n"@[i],
{
    reveal_strlit("USBIP_DISCOVER\n");
}

} // verus!
