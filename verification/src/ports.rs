//! The ports torrents and the DHT node listen on.
use mtorrent::utils::re_exports::mtorrent_utils::net::port_from_hash;
use vstd::prelude::*;

verus! {

/// Where the ports mtorrent derives from a torrent begin.
pub const DYNAMIC_PORTS_START: u16 = 49152;

/// The port mtorrent derives from a torrent's URI.
pub uninterp spec fn derived_port(uri: Seq<char>) -> u16;

/// `port_from_hash` of mtorrent, on the text of a URI: a port from 49152 up that depends on
/// that text alone.
#[verifier::external_body]
fn derive_port(uri: &str) -> (port: u16)
    ensures
        port == derived_port(uri@),
        port >= DYNAMIC_PORTS_START,
{
    port_from_hash(&uri)
}

/// The ports a torrent may listen on, best first: from `base` up, or when that is 0 from the
/// derived one up and then from the first dynamic one.
pub open spec fn port_candidates(base: u16, derived: u16) -> Seq<u16> {
    if base != 0 {
        Seq::new((65536 - base) as nat, |i: int| (base + i) as u16)
    } else {
        Seq::new(
            (65536 - DYNAMIC_PORTS_START) as nat,
            |i: int|
                if derived + i < 65536 {
                    (derived + i) as u16
                } else {
                    (derived + i - 65536 + DYNAMIC_PORTS_START) as u16
                },
        )
    }
}

/// Whether `is_free` may have found that `port` cannot be used.
pub open spec fn unusable<F: Fn(u16) -> bool>(port: u16, taken: Set<u16>, is_free: F) -> bool {
    taken.contains(port) || is_free.ensures((port,), false)
}

/// Whether `is_free` may have found that `port` can be used.
pub open spec fn usable<F: Fn(u16) -> bool>(port: u16, taken: Set<u16>, is_free: F) -> bool {
    !taken.contains(port) && is_free.ensures((port,), true)
}

/// Whether `is_free` can be asked about every port that is not among `taken`. It is asked
/// about no other.
pub open spec fn answers<F: Fn(u16) -> bool>(is_free: F, taken: Set<u16>) -> bool {
    forall|port: u16| port != 0 && !taken.contains(port) ==> #[trigger] is_free.requires((port,))
}

/// Whether `port` is the first of the candidates that can be used, or 0 where none can.
pub open spec fn first_usable<F: Fn(u16) -> bool>(
    candidates: Seq<u16>,
    taken: Set<u16>,
    is_free: F,
    port: u16,
) -> bool {
    ||| port == 0 && forall|j: int|
        0 <= j < candidates.len() ==> unusable(#[trigger] candidates[j], taken, is_free)
    ||| exists|i: int|
        {
            &&& 0 <= i < candidates.len()
            &&& #[trigger] candidates[i] == port
            &&& usable(port, taken, is_free)
            &&& forall|j: int| 0 <= j < i ==> unusable(#[trigger] candidates[j], taken, is_free)
        }
}

/// Whether `port` is among `ports`.
fn holds_port(ports: &[u16], port: u16) -> (held: bool)
    ensures
        held == ports@.to_set().contains(port),
{
    let mut i: usize = 0;
    while i < ports.len()
        invariant
            i <= ports@.len(),
            forall|j: int| 0 <= j < i ==> ports@[j] != port,
        decreases ports@.len() - i,
    {
        if ports[i] == port {
            return true;
        }
        i += 1;
    }
    false
}

/// The port a torrent about to run listens on, `derived` being the one mtorrent would derive
/// for it: the first from `base` up that no running torrent has and nothing else holds, or
/// when `base` is 0 the first from `derived` up. 0 when every port is taken.
pub fn listening_port_from<F: Fn(u16) -> bool>(
    base: u16,
    derived: u16,
    taken: &[u16],
    is_free: F,
) -> (port: u16)
    requires
        derived >= DYNAMIC_PORTS_START,
        answers(is_free, taken@.to_set()),
    ensures
        first_usable(port_candidates(base, derived), taken@.to_set(), is_free, port),
        port != 0 ==> !taken@.to_set().contains(port) && is_free.ensures((port,), true),
        port != 0 && base != 0 ==> port >= base,
        port != 0 && base == 0 ==> port >= DYNAMIC_PORTS_START,
{
    let ghost candidates = port_candidates(base, derived);
    let count: u32 = if base != 0 {
        65536 - base as u32
    } else {
        65536 - DYNAMIC_PORTS_START as u32
    };
    let mut i: u32 = 0;
    while i < count
        invariant
            derived >= DYNAMIC_PORTS_START,
            answers(is_free, taken@.to_set()),
            candidates == port_candidates(base, derived),
            count == candidates.len(),
            i <= count,
            forall|j: int|
                0 <= j < i ==> unusable(#[trigger] candidates[j], taken@.to_set(), is_free),
        decreases count - i,
    {
        let port: u16 = if base != 0 {
            (base as u32 + i) as u16
        } else if derived as u32 + i < 65536 {
            (derived as u32 + i) as u16
        } else {
            (derived as u32 + i - 65536 + DYNAMIC_PORTS_START as u32) as u16
        };
        proof {
            assert(candidates[i as int] == port);
        }
        if !holds_port(taken, port) && is_free(port) {
            return port;
        }
        i += 1;
    }
    0
}

/// The port a torrent about to run listens on: the first from `base` up that no running
/// torrent has and nothing else holds. When `base` is 0 the search starts from the port
/// mtorrent would derive from `uri`, so that a torrent keeps its port from run to run while
/// it can. 0, for mtorrent to derive one after all, when every port is taken.
///
/// Each torrent needs a port of its own: mtorrent's listeners share a TCP port, and the
/// system would hand a connection for one torrent to any of them. Nor may the port be held
/// by anything else: mtorrent binds uTP on the same port over UDP, and runs the torrent
/// without it when that fails.
pub fn listening_port<F: Fn(u16) -> bool>(base: u16, uri: &str, taken: &[u16], is_free: F) -> (port:
    u16)
    requires
        answers(is_free, taken@.to_set()),
    ensures
        first_usable(
            port_candidates(base, derived_port(uri@)),
            taken@.to_set(),
            is_free,
            port,
        ),
        port != 0 ==> !taken@.to_set().contains(port) && is_free.ensures((port,), true),
        port != 0 && base != 0 ==> port >= base,
        port != 0 && base == 0 ==> port >= DYNAMIC_PORTS_START,
{
    listening_port_from(base, derive_port(uri), taken, is_free)
}

/// The best candidate is the one taken while it can be: the base port, or without one the
/// derived port, so that a torrent keeps its port from run to run.
pub proof fn the_best_port_is_taken_while_free<F: Fn(u16) -> bool>(
    base: u16,
    derived: u16,
    taken: Set<u16>,
    is_free: F,
    port: u16,
)
    requires
        derived >= DYNAMIC_PORTS_START,
        first_usable(port_candidates(base, derived), taken, is_free, port),
        ({
            let best = if base != 0 { base } else { derived };
            !taken.contains(best) && !is_free.ensures((best,), false)
        }),
    ensures
        port == (if base != 0 { base } else { derived }),
{
    let candidates = port_candidates(base, derived);
    let best = if base != 0 {
        base
    } else {
        derived
    };
    assert(candidates[0] == best);
}

/// The usual UDP port of a DHT node.
pub const USUAL_DHT_PORT: u16 = 6881;

/// Whether `port` is the first of `ports` found free, or 0 where none was.
pub open spec fn first_free<F: Fn(u16) -> bool>(ports: Seq<u16>, is_free: F, port: u16) -> bool {
    ||| port == 0 && forall|j: int|
        0 <= j < ports.len() ==> is_free.ensures((#[trigger] ports[j],), false)
    ||| exists|i: int|
        {
            &&& 0 <= i < ports.len()
            &&& #[trigger] ports[i] == port
            &&& is_free.ensures((port,), true)
            &&& forall|j: int| 0 <= j < i ==> is_free.ensures((#[trigger] ports[j],), false)
        }
}

/// The first of `ports` that is free, or 0, which leaves the choice to the system.
pub fn free_udp_port<F: Fn(u16) -> bool>(ports: &[u16], is_free: F) -> (port: u16)
    requires
        forall|i: int| 0 <= i < ports@.len() ==> is_free.requires((#[trigger] ports@[i],)),
    ensures
        first_free(ports@, is_free, port),
{
    let mut i: usize = 0;
    while i < ports.len()
        invariant
            i <= ports@.len(),
            forall|i: int| 0 <= i < ports@.len() ==> is_free.requires((#[trigger] ports@[i],)),
            forall|j: int| 0 <= j < i ==> is_free.ensures((#[trigger] ports@[j],), false),
        decreases ports@.len() - i,
    {
        if is_free(ports[i]) {
            return ports[i];
        }
        i += 1;
    }
    0
}

/// The ports the DHT node tries in turn: the usual one and the eight after it.
pub open spec fn dht_ports() -> Seq<u16> {
    Seq::new(9, |i: int| (USUAL_DHT_PORT + i) as u16)
}

/// The UDP port for the DHT node: the usual 6881, or the next free one when another client
/// holds it. 0, for any free port, when all of 6881 to 6889 are in use.
pub fn dht_port<F: Fn(u16) -> bool>(is_free: F) -> (port: u16)
    requires
        forall|port: u16| 6881 <= port <= 6889 ==> #[trigger] is_free.requires((port,)),
    ensures
        first_free(dht_ports(), is_free, port),
{
    let ports: [u16; 9] = [6881, 6882, 6883, 6884, 6885, 6886, 6887, 6888, 6889];
    proof {
        assert(ports@ =~= dht_ports());
    }
    free_udp_port(ports.as_slice(), is_free)
}

/// The port found is the lowest from `base` up that can be used: each one below it is taken by
/// a running torrent or held by something else, and so are all from `base` up where none is
/// found.
pub proof fn the_lowest_port_that_can_be_used_is_found<F: Fn(u16) -> bool>(
    base: u16,
    derived: u16,
    taken: Set<u16>,
    is_free: F,
    port: u16,
    lower: u16,
)
    requires
        base != 0,
        first_usable(port_candidates(base, derived), taken, is_free, port),
    ensures
        port != 0 ==> base <= port && !taken.contains(port) && is_free.ensures((port,), true),
        port != 0 && base <= lower < port ==> taken.contains(lower) || is_free.ensures(
            (lower,),
            false,
        ),
        port == 0 && base <= lower ==> taken.contains(lower) || is_free.ensures((lower,), false),
{
    let candidates = port_candidates(base, derived);
    if base <= lower {
        assert(candidates[lower - base] == lower);
    }
}

/// Without a port to count up from, the ports tried are the derived one and those after it, and
/// then those from 49152 up to it: each port from 49152 up in its turn and none twice.
pub proof fn automatic_ports_are_tried_from_the_derived_one(
    derived: u16,
    port: u16,
    i: int,
)
    requires
        derived >= 49152,
        port >= 49152,
        0 <= i < 16384,
    ensures
        port_candidates(0, derived).len() == 16384,
        port_candidates(0, derived)[0] == derived,
        port_candidates(0, derived)[i] >= 49152,
        i + 1 < 16384 ==> port_candidates(0, derived)[i + 1] == (if port_candidates(0, derived)[i]
            == 65535 {
            49152
        } else {
            port_candidates(0, derived)[i] + 1
        }),
        port_candidates(0, derived).contains(port),
{
    let candidates = port_candidates(0, derived);
    if port >= derived {
        assert(candidates[port - derived] == port);
    } else {
        assert(candidates[port - 49152 + 65536 - derived] == port);
    }
}

/// Without a port to count up from, the port found can be used, and none tried before it could.
pub proof fn an_automatic_port_is_the_first_that_can_be_used<F: Fn(u16) -> bool>(
    derived: u16,
    taken: Set<u16>,
    is_free: F,
    port: u16,
    lower: u16,
)
    requires
        derived >= 49152,
        first_usable(port_candidates(0, derived), taken, is_free, port),
    ensures
        port != 0 ==> port >= 49152 && !taken.contains(port) && is_free.ensures((port,), true),
        port >= derived && derived <= lower < port ==> taken.contains(lower) || is_free.ensures(
            (lower,),
            false,
        ),
        0 < port < derived && (derived <= lower || 49152 <= lower < port) ==> taken.contains(lower)
            || is_free.ensures((lower,), false),
        port == 0 && lower >= 49152 ==> taken.contains(lower) || is_free.ensures((lower,), false),
{
    let candidates = port_candidates(0, derived);
    if lower >= derived {
        assert(candidates[lower - derived] == lower);
    } else if lower >= 49152 {
        assert(candidates[lower - 49152 + 65536 - derived] == lower);
    }
}

/// The DHT node listens on the lowest of the ports 6881 to 6889 that is free, or leaves the
/// choice to the system when none is.
pub proof fn the_dht_port_is_the_lowest_that_is_free<F: Fn(u16) -> bool>(
    is_free: F,
    port: u16,
    lower: u16,
)
    requires
        first_free(dht_ports(), is_free, port),
        6881 <= lower <= 6889,
    ensures
        port == 0 || (6881 <= port <= 6889 && is_free.ensures((port,), true)),
        port == 0 || lower < port ==> is_free.ensures((lower,), false),
{
    let ports = dht_ports();
    assert(ports[lower - 6881] == lower);
}

} // verus!
