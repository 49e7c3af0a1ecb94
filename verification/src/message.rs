//! The messages that peers exchange, as far as accounting and routing read them.

use vstd::prelude::*;

verus! {

/// Identifies a peer, whatever transport it is reached by.
#[derive(Debug, Clone, Copy, PartialEq, Eq, Hash, Structural)]
pub struct OmniPeerId(pub u64);

/// Whether the transport resends a message until its arrival is confirmed.
#[derive(Debug, Clone, Copy, PartialEq, Eq, Structural)]
pub enum Reliability {
    Unreliable,
    Reliable,
}

/// Where a message is to go.
#[derive(Debug)]
pub enum Destination<PeerId> {
    Peer(PeerId),
    Peers(Vec<PeerId>),
    Host,
    Broadcast,
}

/// A message between two proxies.
///
/// A variant holds what accounting looks into, and small plain contents; other
/// contents are left out.
#[derive(Debug)]
pub enum NetMsg {
    Welcome,
    RequestMods,
    Mods,
    EndRun,
    Kick,
    /// The nonce of a ping.
    Ping(u64),
    /// The nonce of the ping that is answered.
    Pong(u64),
    PeerDisconnected,
    StartGame,
    ModRaw,
    ModCompressed,
    WorldMessage(WorldNetMessage),
    PlayerColor,
    RemoteMsg(RemoteMessage),
    ForwardDesToProxy(DesToProxy),
    ForwardProxyToDes(ProxyToDes),
    ForwardProxyToWorldSync(ProxyToWorldSync),
    NoitaDisconnected,
    Flags,
    RespondFlagNormal,
    RespondFlagSlow,
    RespondFlagMoon,
    PlayerPosition(i32, i32, bool, bool),
    RespondFlagStevari,
    AudioData,
    /// The encoded map.
    MapData(Vec<u8>),
    /// The encoded material table.
    MatData(Vec<u8>),
}

/// A message to the proxy's counterpart inside the game.
#[derive(Debug)]
pub enum RemoteMessage {
    RemoteDes(RemoteDes),
}

/// Entity synchronisation between two games.
#[derive(Debug)]
pub enum RemoteDes {
    Reset,
    InterestRequest,
    EntityUpdate(Vec<EntityUpdate>),
    EntityInit,
    ExitedInterest,
    Projectiles,
    RequestGrab,
    CameraPos,
    DeadEntities,
    SpawnOnce,
    ChestOpen,
    ChestOpenRequest,
}

/// One change to an entity.
#[derive(Debug, Clone, Copy, PartialEq, Eq, Structural)]
pub enum EntityUpdate {
    KillEntity,
    RemoveEntity,
    /// The bits of the new health value.
    SetHp(u32),
    /// A change that neither kills nor removes the entity.
    Other,
}

/// What the game's entity synchronisation tells the proxy.
#[derive(Debug, Clone, Copy, PartialEq, Eq, Structural)]
pub enum DesToProxy {
    DeleteEntity,
    ReleaseAuthority,
    RequestAuthority,
    UpdatePosition,
    UpdatePositions,
    TransferAuthorityTo,
    UpdateWand,
}

/// What the proxy tells the game's entity synchronisation.
#[derive(Debug, Clone, Copy, PartialEq, Eq, Structural)]
pub enum ProxyToDes {
    GotAuthority,
    GotAuthoritys,
    RemoveEntities,
    DeleteEntity,
}

/// What the proxy tells the game's world synchronisation.
#[derive(Debug)]
pub enum ProxyToWorldSync {
    /// Encoded chunk updates.
    Updates(Vec<Vec<u8>>),
}

/// World synchronisation between two proxies.
#[derive(Debug)]
pub enum WorldNetMessage {
    RequestAuthority,
    AskForAuthority,
    GetChunk,
    LoseAuthority,
    ChangePriority,
    GotAuthority,
    RelinquishAuthority,
    UpdateStorage,
    AuthorityAlreadyTaken,
    ListenRequest,
    ListenStopRequest,
    UnloadChunk,
    ListenInitialResponse,
    ListenUpdate,
    /// Encoded chunks.
    ChunkPacket { chunkpacket: Vec<Vec<u8>> },
    ListenAuthorityRelinquished,
    GetAuthorityFrom,
    RequestAuthorityTransfer,
    TransferOk,
    TransferFailed,
    NotifyNewAuthority,
}

/// The peers that a message to `destination` is accounted to.
///
/// A broadcast names no peer.
pub open spec fn destination_peers(
    destination: Destination<OmniPeerId>,
    host: OmniPeerId,
) -> Seq<OmniPeerId> {
    match destination {
        Destination::Peer(peer) => seq![peer],
        Destination::Peers(peers) => peers@,
        Destination::Host => seq![host],
        Destination::Broadcast => seq![],
    }
}

/// Lists the peers that a message to `destination` is accounted to, in the order
/// in which the destination names them. `host` stands in for the host.
pub fn destinations_for(destination: &Destination<OmniPeerId>, host: OmniPeerId) -> (peers: Vec<
    OmniPeerId,
>)
    ensures
        peers@ == destination_peers(*destination, host),
        *destination matches Destination::Peer(peer) ==> peers@.len() == 1 && peers@[0] == peer,
        *destination matches Destination::Peers(list) ==> peers@.len() == list@.len() && forall|
            i: int,
        |
            0 <= i < list@.len() ==> #[trigger] peers@[i] == list@[i],
        *destination is Host ==> peers@.len() == 1 && peers@[0] == host,
        *destination is Broadcast ==> peers@.len() == 0,
{
    match destination {
        Destination::Peer(peer) => vec![*peer],
        Destination::Peers(peers) => {
            let copy = peers.clone();
            assert(copy@ =~= peers@);
            copy
        },
        Destination::Host => vec![host],
        Destination::Broadcast => Vec::new(),
    }
}

/// A list of peers stands for the peers in it, each at its place, whoever the host is; one
/// peer stands for itself, the host for the host alone, and a broadcast for nobody.
pub proof fn lemma_destination_peers(destination: Destination<OmniPeerId>, host: OmniPeerId)
    ensures
        destination matches Destination::Peer(peer) ==> destination_peers(
            destination,
            host,
        ).len() == 1 && destination_peers(destination, host)[0] == peer,
        destination matches Destination::Peers(list) ==> destination_peers(
            destination,
            host,
        ).len() == list@.len() && forall|i: int|
            0 <= i < list@.len() ==> #[trigger] destination_peers(destination, host)[i]
                == list@[i],
        destination is Host ==> destination_peers(destination, host).len() == 1
            && destination_peers(destination, host)[0] == host,
        destination is Broadcast ==> destination_peers(destination, host).len() == 0,
{
}

/// The host matters only to a message that is meant for the host.
pub proof fn lemma_host_matters_to_host_only(
    destination: Destination<OmniPeerId>,
    host: OmniPeerId,
    other: OmniPeerId,
)
    requires
        !(destination is Host),
    ensures
        destination_peers(destination, host) == destination_peers(destination, other),
{
}

} // verus!
