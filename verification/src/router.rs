//! The forwarder's routing: which upstream a new connection takes, which
//! tunnels the switch to the direct route ends, and which clients are served.
use vstd::prelude::*;

use crate::address::{is_loopback, loopback_address, IpAddress};

verus! {

/// The most connections the forwarder handles at once.
pub const MAX_CONNECTIONS: usize = 128;

/// The upstream a connection is tunnelled through.
#[derive(Clone, Copy, Debug, PartialEq, Eq)]
pub enum Route {
    /// Through the Tor worker.
    Tor,
    /// Straight to the destination.
    Direct,
}

/// New connections go through Tor until the switch, directly after it.
pub open spec fn route_spec(switched: bool) -> Route {
    if switched {
        Route::Direct
    } else {
        Route::Tor
    }
}

/// The route of a new connection.
pub fn route_for(switched: bool) -> (r: Route)
    ensures
        r == route_spec(switched),
{
    if switched {
        Route::Direct
    } else {
        Route::Tor
    }
}

/// The switch ends every tunnel through Tor, open or still being opened;
/// Discord reconnects, and its new connections take the direct route.
pub open spec fn ended_by_switch_spec(r: Route) -> bool {
    r == Route::Tor
}

/// Whether the switch ends a tunnel on this route.
pub fn ended_by_switch(r: Route) -> (b: bool)
    ensures
        b == ended_by_switch_spec(r),
{
    match r {
        Route::Tor => true,
        Route::Direct => false,
    }
}

/// A client is served only from a loopback address, and only while fewer
/// than `MAX_CONNECTIONS` connections are handled.
pub open spec fn admitted(peer: IpAddress, in_flight: int) -> bool {
    is_loopback(peer) && in_flight < MAX_CONNECTIONS
}

/// Whether to serve a client at `peer` while `in_flight` connections are handled.
pub fn admit_client(peer: IpAddress, in_flight: usize) -> (r: bool)
    ensures
        r == admitted(peer, in_flight as int),
{
    loopback_address(peer) && in_flight < MAX_CONNECTIONS
}

/// What happens to the forwarder: the switch to the direct route, or a new
/// connection.
pub enum RouterEvent {
    Switch,
    Connect,
}

/// Whether the route is switched after `events`, starting from `switched`.
pub open spec fn switched_after(switched: bool, events: Seq<RouterEvent>) -> bool
    decreases events.len(),
{
    if events.len() == 0 {
        switched
    } else {
        switched_after(
            switched || events[0] is Switch,
            events.drop_first(),
        )
    }
}

/// The switch cannot be undone: once switched, the route stays switched, and
/// every connection after a switch goes directly.
pub proof fn lemma_switch_irreversible(switched: bool, events: Seq<RouterEvent>, j: int, k: int)
    requires
        0 <= j <= k < events.len(),
        events[j] is Switch,
    ensures
        switched ==> switched_after(switched, events),
        switched_after(switched, events.take(k + 1)),
        j < k ==> route_spec(switched_after(switched, events.take(k))) == Route::Direct,
    decreases events.len(),
{
    lemma_switched_stays(switched, events);
    lemma_switched_by(switched, events.take(k + 1), j);
    if k > j {
        assert(events.take(k)[j] is Switch);
        lemma_switched_by(switched, events.take(k), j);
    }
}

proof fn lemma_switched_stays(switched: bool, events: Seq<RouterEvent>)
    ensures
        switched ==> switched_after(switched, events),
    decreases events.len(),
{
    if events.len() > 0 {
        lemma_switched_stays(switched || events[0] is Switch, events.drop_first());
    }
}

proof fn lemma_switched_by(switched: bool, events: Seq<RouterEvent>, j: int)
    requires
        0 <= j < events.len(),
        events[j] is Switch,
    ensures
        switched_after(switched, events),
    decreases events.len(),
{
    if j == 0 {
        lemma_switched_stays(true, events.drop_first());
    } else {
        assert(events.drop_first()[j - 1] is Switch);
        lemma_switched_by(switched || events[0] is Switch, events.drop_first(), j - 1);
    }
}

} // verus!
