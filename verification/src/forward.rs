use vstd::prelude::*;
use rand::Rng;

verus! {

/// The lowest port a forward listens on.
pub const FORWARD_PORT_LOW: u16 = 30000;

/// One past the highest port a forward listens on.
pub const FORWARD_PORT_HIGH: u16 = 40000;

/// Calls `rand::Rng::gen_range` on `rand::thread_rng()` with `low..high`.
/// Claimed: the result lies in that range (which value it is depends on
/// chance and is not stated).
#[verifier::external_body]
fn random_in_range(low: u16, high: u16) -> (n: u16)
    requires
        low < high,
    ensures
        low <= n < high,
{
    rand::thread_rng().gen_range(low..high)
}

/// A port to try for a new forward, drawn at random from
/// `FORWARD_PORT_LOW..FORWARD_PORT_HIGH`. The caller draws again when the port
/// cannot be bound.
pub fn pick_forward_port() -> (port: u16)
    ensures
        FORWARD_PORT_LOW <= port < FORWARD_PORT_HIGH,
{
    random_in_range(FORWARD_PORT_LOW, FORWARD_PORT_HIGH)
}

/// The address a forward connects to: port 8000 of the task's machine.
pub fn forward_target(ip: &String) -> (addr: String)
    ensures
        addr@ == ip@ + ":8000"@,
{
    let mut addr = ip.clone();
    addr.append(":8000");
    addr
}

} // verus!
