//! Which ports the development server tries, in order.
use vstd::prelude::*;

use crate::format::{decimal, push_decimal};
use crate::text::{concat2, push_str};

verus! {

/// The last port tried: `attempts` past the preferred one, saturating at `u16::MAX`.
pub open spec fn last_port(preferred: u16, attempts: u16) -> u16 {
    if preferred + attempts > 65535 {
        65535
    } else {
        (preferred + attempts) as u16
    }
}

/// The ports tried in order: the preferred one up to `last_port`, inclusive.
pub open spec fn candidate_ports(preferred: u16, attempts: u16) -> Seq<u16> {
    Seq::new((last_port(preferred, attempts) - preferred + 1) as nat, |i: int| (preferred + i) as u16)
}

/// Lists the ports to try for the development server, first choice first.
pub fn port_candidates(preferred_port: u16, max_attempts: u16) -> (r: Vec<u16>)
    ensures
        r@ == candidate_ports(preferred_port, max_attempts),
{
    let upper = preferred_port.saturating_add(max_attempts);
    let mut out: Vec<u16> = Vec::new();
    let mut port = preferred_port;
    loop
        invariant
            upper == last_port(preferred_port, max_attempts),
            preferred_port <= port <= upper,
            out@ == candidate_ports(preferred_port, max_attempts).take(port - preferred_port),
        decreases upper - port,
    {
        out.push(port);
        proof {
            assert(candidate_ports(preferred_port, max_attempts).take(port - preferred_port + 1)
                =~= candidate_ports(preferred_port, max_attempts).take(port - preferred_port).push(
                port,
            ));
        }
        if port == upper {
            proof {
                assert(candidate_ports(preferred_port, max_attempts).take(port - preferred_port + 1)
                    =~= candidate_ports(preferred_port, max_attempts));
            }
            return out;
        }
        port = port + 1;
    }
}

/// The error when no candidate port could be bound.
pub open spec fn no_port_message(host: Seq<char>, preferred: u16, upper: u16) -> Seq<char> {
    "no available port found for host "@ + host + " in range "@ + decimal(preferred as nat) + "-"@
        + decimal(upper as nat)
}

/// Formats the error for a host on which none of the candidate ports could be bound.
pub fn no_available_port_message(host: &str, preferred_port: u16, upper: u16) -> (r: String)
    ensures
        r@ == no_port_message(host@, preferred_port, upper),
{
    let mut message = concat2("no available port found for host ", host);
    push_str(&mut message, " in range ");
    push_decimal(&mut message, preferred_port as u64);
    push_str(&mut message, "-");
    push_decimal(&mut message, upper as u64);
    message
}

} // verus!
