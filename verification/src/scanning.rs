//! A scan of the local network: what the packets that it receives add to it.

use crate::advertisement;
use crate::advertisement::{ParsedAdvertisement, ParsedAdvertisementView};
use crate::crypto;
use crate::discovery::{DiscoveryObservation, DiscoveryObservationView, SourceAddress};
use crate::discovery_rules;
use crate::edge_advertisement;
use crate::edge_advertisement::EdgeOrganizationProof;
use crate::mdns;
use crate::ssdp;
use crate::table;
use crate::ws_discovery;
use vstd::prelude::*;

verus! {

#[derive(Clone, Copy, Debug, PartialEq, Eq, Structural)]
pub enum WireProtocol {
    Mdns,
    Ssdp,
    WsDiscovery,
}

/// Whether a scan waits for another packet.
pub fn scan_continues(now_ms: i64, deadline_ms: i64, cancelled: bool, found: usize, max: usize) -> (r:
    bool)
    ensures
        r == (now_ms < deadline_ms && !cancelled && found < max),
{
    now_ms < deadline_ms && !cancelled && found < max
}

/// What a packet announces, if it can be read.
pub open spec fn announced(
    protocol: WireProtocol,
    packet: Seq<u8>,
    proof_secret: Option<(Seq<char>, Seq<char>, Seq<u8>)>,
    now_seconds: i64,
) -> Option<Seq<ParsedAdvertisementView>> {
    match protocol {
        WireProtocol::Mdns => mdns::answer_announcements(packet, proof_secret, now_seconds),
        WireProtocol::Ssdp => ssdp::response_announcements(packet),
        WireProtocol::WsDiscovery => ws_discovery::probe_announcements(packet),
    }
}

/// What was found, with the announcements from an index on until there is no more room.
pub open spec fn with_announcements(
    found: Seq<DiscoveryObservationView>,
    announcements: Seq<ParsedAdvertisementView>,
    i: int,
    max: int,
    address: SourceAddress,
    address_text: Seq<char>,
    now_ms: i64,
) -> Seq<DiscoveryObservationView>
    decreases announcements.len() - i,
{
    if i < 0 || i >= announcements.len() || found.len() >= max {
        found
    } else {
        with_announcements(
            found.push(
                advertisement::observation_of(announcements[i], address, address_text, now_ms),
            ),
            announcements,
            i + 1,
            max,
            address,
            address_text,
            now_ms,
        )
    }
}

/// A packet and where it came from.
#[derive(Debug)]
pub struct ReceivedPacket<'a> {
    pub bytes: &'a [u8],
    pub address: SourceAddress,
    /// The address as it is written.
    pub address_text: &'a str,
    pub now_seconds: i64,
    pub now_ms: i64,
}

/// What was found once a packet has been looked at. A packet from beyond the local network, or
/// one that cannot be read, adds nothing.
pub open spec fn with_packet(
    found: Seq<DiscoveryObservationView>,
    protocol: WireProtocol,
    p: ReceivedPacket,
    proof_secret: Option<(Seq<char>, Seq<char>, Seq<u8>)>,
    max: int,
) -> Seq<DiscoveryObservationView> {
    if !discovery_rules::lan_address(p.address) {
        found
    } else {
        match announced(protocol, p.bytes@, proof_secret, p.now_seconds) {
            None => found,
            Some(announcements) => with_announcements(
                found,
                announcements,
                0,
                max,
                p.address,
                p.address_text@,
                p.now_ms,
            ),
        }
    }
}

fn add_announcements(
    found: &mut Vec<DiscoveryObservation>,
    announcements: Vec<ParsedAdvertisement>,
    max: usize,
    address: SourceAddress,
    address_text: &str,
    now_ms: i64,
)
    ensures
        table::views(final(found)@) == with_announcements(
            table::views(old(found)@),
            table::views(announcements@),
            0,
            max as int,
            address,
            address_text@,
            now_ms,
        ),
{
    let ghost all = table::views(announcements@);
    let ghost start = table::views(found@);
    let mut rest = announcements;
    let mut i: usize = 0;
    let total: usize = rest.len();
    let ghost given = rest@;
    while i < total && found.len() < max
        invariant
            i <= total,
            total == all.len(),
            given.len() == total,
            all == table::views(given),
            rest@ == given.skip(i as int),
            start == table::views(old(found)@),
            with_announcements(start, all, 0, max as int, address, address_text@, now_ms)
                == with_announcements(
                table::views(found@),
                all,
                i as int,
                max as int,
                address,
                address_text@,
                now_ms,
            ),
        decreases total - i,
    {
        let announcement = rest.remove(0);
        proof {
            assert(announcement == given[i as int]);
            assert(all[i as int] == announcement@);
            assert(rest@ =~= given.skip(i + 1));
        }
        let one = announcement.into_observation(address, address_text, now_ms);
        proof {
            table::lemma_views_push(found@, one);
            assert(table::views(found@).len() == found@.len());
        }
        found.push(one);
        i = i + 1;
    }
    proof {
        assert(table::views(found@).len() == found@.len());
    }
}

/// Looks at a packet that a scan received.
pub fn receive_packet(
    found: &mut Vec<DiscoveryObservation>,
    protocol: WireProtocol,
    packet: &ReceivedPacket<'_>,
    organization_proof: Option<EdgeOrganizationProof<'_>>,
    max_candidates: usize,
)
    requires
        organization_proof is Some ==> organization_proof->Some_0.secret@.len()
            <= crypto::MAX_KEY_BYTES,
    ensures
        table::views(final(found)@) == with_packet(
            table::views(old(found)@),
            protocol,
            *packet,
            edge_advertisement::proof_view(organization_proof),
            max_candidates as int,
        ),
{
    if !discovery_rules::is_usable_source_address(packet.address) {
        return;
    }
    let parsed = match protocol {
        WireProtocol::Mdns => mdns::parse_mdns_packet(
            packet.bytes,
            organization_proof,
            packet.now_seconds,
        ),
        WireProtocol::Ssdp => ssdp::parse_ssdp_packet(packet.bytes),
        WireProtocol::WsDiscovery => ws_discovery::parse_ws_discovery_packet(packet.bytes),
    };
    match parsed {
        Ok(announcements) => {
            add_announcements(
                found,
                announcements,
                max_candidates,
                packet.address,
                packet.address_text,
                packet.now_ms,
            );
        },
        Err(_) => {},
    }
}

proof fn lemma_announcements(
    found: Seq<DiscoveryObservationView>,
    announcements: Seq<ParsedAdvertisementView>,
    i: int,
    max: int,
    address: SourceAddress,
    address_text: Seq<char>,
    now_ms: i64,
)
    requires
        0 <= i,
        found.len() <= max,
    ensures
        ({
            let after = with_announcements(
                found,
                announcements,
                i,
                max,
                address,
                address_text,
                now_ms,
            );
            &&& found.len() <= after.len() <= max
            &&& found == after.take(found.len() as int)
        }),
    decreases announcements.len() - i,
{
    if i < announcements.len() && found.len() < max {
        let next = found.push(
            advertisement::observation_of(announcements[i], address, address_text, now_ms),
        );
        lemma_announcements(next, announcements, i + 1, max, address, address_text, now_ms);
        let after = with_announcements(
            found,
            announcements,
            i,
            max,
            address,
            address_text,
            now_ms,
        );
        assert(after.take(found.len() as int) =~= after.take(next.len() as int).take(
            found.len() as int,
        ));
        assert(found =~= next.take(found.len() as int));
    } else {
        assert(found =~= found.take(found.len() as int));
    }
}

/// A scan never finds more than it is asked for and forgets nothing, and packets from beyond the
/// local network leave no trace in it.
pub proof fn law_scans_stay_local_and_bounded(
    found: Seq<DiscoveryObservationView>,
    protocol: WireProtocol,
    p: ReceivedPacket,
    proof_secret: Option<(Seq<char>, Seq<char>, Seq<u8>)>,
    max: int,
)
    requires
        found.len() <= max,
    ensures
        ({
            let after = with_packet(found, protocol, p, proof_secret, max);
            &&& found.len() <= after.len() <= max
            &&& found == after.take(found.len() as int)
            &&& !discovery_rules::lan_address(p.address) ==> after == found
        }),
{
    assert(found =~= found.take(found.len() as int));
    if discovery_rules::lan_address(p.address) {
        match announced(protocol, p.bytes@, proof_secret, p.now_seconds) {
            Some(announcements) => lemma_announcements(
                found,
                announcements,
                0,
                max,
                p.address,
                p.address_text@,
                p.now_ms,
            ),
            None => {},
        }
    }
}

proof fn lemma_found(
    found: Seq<DiscoveryObservationView>,
    announcements: Seq<ParsedAdvertisementView>,
    i: int,
    max: int,
    address: SourceAddress,
    address_text: Seq<char>,
    now_ms: i64,
)
    requires
        0 <= i <= announcements.len(),
        found.len() <= max,
    ensures
        ({
            let after = with_announcements(
                found,
                announcements,
                i,
                max,
                address,
                address_text,
                now_ms,
            );
            let more = announcements.len() - i;
            &&& after.len() == if found.len() + more <= max {
                found.len() + more
            } else {
                max
            }
            &&& forall|k: int|
                0 <= k < after.len() - found.len() ==> #[trigger] after.skip(found.len() as int)[k]
                    == advertisement::observation_of(
                    announcements[i + k],
                    address,
                    address_text,
                    now_ms,
                )
        }),
    decreases announcements.len() - i,
{
    if i < announcements.len() && found.len() < max {
        let first = advertisement::observation_of(announcements[i], address, address_text, now_ms);
        let next = found.push(first);
        lemma_found(next, announcements, i + 1, max, address, address_text, now_ms);
        lemma_announcements(next, announcements, i + 1, max, address, address_text, now_ms);
        let after = with_announcements(
            found,
            announcements,
            i,
            max,
            address,
            address_text,
            now_ms,
        );
        assert forall|k: int| 0 <= k < after.len() - found.len() implies #[trigger] after.skip(
            found.len() as int,
        )[k] == advertisement::observation_of(
            announcements[i + k],
            address,
            address_text,
            now_ms,
        ) by {
            if k == 0 {
                assert(after.take(next.len() as int)[found.len() as int] == first);
            } else {
                assert(after.skip(next.len() as int)[k - 1] == after[found.len() + k]);
            }
        }
    }
}

/// A packet from the local network adds what it announces, in order, each as an observation at the
/// address that it came from, as far as there is room; one that cannot be read adds nothing.
pub proof fn law_packets_add_what_they_announce(
    found: Seq<DiscoveryObservationView>,
    protocol: WireProtocol,
    p: ReceivedPacket,
    proof_secret: Option<(Seq<char>, Seq<char>, Seq<u8>)>,
    max: int,
    k: int,
)
    requires
        found.len() <= max,
        discovery_rules::lan_address(p.address),
    ensures
        ({
            let after = with_packet(found, protocol, p, proof_secret, max);
            match announced(protocol, p.bytes@, proof_secret, p.now_seconds) {
                None => after == found,
                Some(list) => {
                    &&& after.len() == if found.len() + list.len() <= max {
                        (found.len() + list.len()) as int
                    } else {
                        max
                    }
                    &&& found.len() <= k < after.len() ==> after[k] == advertisement::observation_of(
                        list[k - found.len()],
                        p.address,
                        p.address_text@,
                        p.now_ms,
                    )
                },
            }
        }),
{
    match announced(protocol, p.bytes@, proof_secret, p.now_seconds) {
        None => {},
        Some(list) => {
            lemma_found(found, list, 0, max, p.address, p.address_text@, p.now_ms);
            let after = with_packet(found, protocol, p, proof_secret, max);
            if found.len() <= k < after.len() {
                assert(after.skip(found.len() as int)[k - found.len()] == after[k]);
            }
        },
    }
}

/// A packet is read by the rules of the protocol that it was received over.
pub proof fn law_packets_are_read_by_their_protocol(
    packet: Seq<u8>,
    proof_secret: Option<(Seq<char>, Seq<char>, Seq<u8>)>,
    now_seconds: i64,
)
    ensures
        announced(WireProtocol::Mdns, packet, proof_secret, now_seconds)
            == mdns::answer_announcements(packet, proof_secret, now_seconds),
        announced(WireProtocol::Ssdp, packet, proof_secret, now_seconds)
            == ssdp::response_announcements(packet),
        announced(WireProtocol::WsDiscovery, packet, proof_secret, now_seconds)
            == ws_discovery::probe_announcements(packet),
{
}

} // verus!
