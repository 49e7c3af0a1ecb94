//! What holds of the categories of different messages.

use vstd::prelude::*;

use crate::classify::{
    des_to_proxy_category, ends_entity, entity_updates_category, net_category,
    proxy_to_des_category, remote_category, remote_des_category, world_category,
};
use crate::message::{
    DesToProxy, EntityUpdate, NetMsg, ProxyToDes, RemoteDes, RemoteMessage, WorldNetMessage,
};

verus! {

/// Which family of messages a category belongs to, by where it has its first colon and
/// by its first letter.
spec fn family(text: Seq<char>) -> int {
    if text.len() <= 10 {
        0
    } else if text[5] == ':' {
        1
    } else if text[9] == ':' {
        2
    } else if text[10] == ':' {
        if text[0] == 'D' {
            3
        } else {
            4
        }
    } else {
        0
    }
}

/// Tells the categories of world synchronisation messages apart.
spec fn world_key(text: Seq<char>) -> int {
    text.len() + 1000 * (text[11] as int)
}

/// World synchronisation messages of different kinds are counted under different categories.
pub proof fn lemma_world_categories_differ(a: WorldNetMessage, b: WorldNetMessage)
    requires
        world_category(a) == world_category(b),
    ensures
        a is RequestAuthority <==> b is RequestAuthority,
        a is AskForAuthority <==> b is AskForAuthority,
        a is GetChunk <==> b is GetChunk,
        a is LoseAuthority <==> b is LoseAuthority,
        a is ChangePriority <==> b is ChangePriority,
        a is GotAuthority <==> b is GotAuthority,
        a is RelinquishAuthority <==> b is RelinquishAuthority,
        a is UpdateStorage <==> b is UpdateStorage,
        a is AuthorityAlreadyTaken <==> b is AuthorityAlreadyTaken,
        a is ListenRequest <==> b is ListenRequest,
        a is ListenStopRequest <==> b is ListenStopRequest,
        a is UnloadChunk <==> b is UnloadChunk,
        a is ListenInitialResponse <==> b is ListenInitialResponse,
        a is ListenUpdate <==> b is ListenUpdate,
        a is ChunkPacket <==> b is ChunkPacket,
        a is ListenAuthorityRelinquished <==> b is ListenAuthorityRelinquished,
        a is GetAuthorityFrom <==> b is GetAuthorityFrom,
        a is RequestAuthorityTransfer <==> b is RequestAuthorityTransfer,
        a is TransferOk <==> b is TransferOk,
        a is TransferFailed <==> b is TransferFailed,
        a is NotifyNewAuthority <==> b is NotifyNewAuthority,
{
    lemma_world_key(a);
    lemma_world_key(b);
}

/// What the categories of world synchronisation messages are told apart by, and their
/// family.
proof fn lemma_world_key(msg: WorldNetMessage)
    ensures
        family(world_category(msg)) == 1,
        msg is RequestAuthority ==> world_key(world_category(msg)) == 101023,
        msg is AskForAuthority ==> world_key(world_category(msg)) == 111022,
        msg is GetChunk ==> world_key(world_category(msg)) == 104015,
        msg is LoseAuthority ==> world_key(world_category(msg)) == 65020,
        msg is ChangePriority ==> world_key(world_category(msg)) == 103021,
        msg is GotAuthority ==> world_key(world_category(msg)) == 117019,
        msg is RelinquishAuthority ==> world_key(world_category(msg)) == 110026,
        msg is UpdateStorage ==> world_key(world_category(msg)) == 116020,
        msg is AuthorityAlreadyTaken ==> world_key(world_category(msg)) == 111028,
        msg is ListenRequest ==> world_key(world_category(msg)) == 101020,
        msg is ListenStopRequest ==> world_key(world_category(msg)) == 101024,
        msg is UnloadChunk ==> world_key(world_category(msg)) == 97018,
        msg is ListenInitialResponse ==> world_key(world_category(msg)) == 101028,
        msg is ListenUpdate ==> world_key(world_category(msg)) == 101019,
        msg is ChunkPacket ==> world_key(world_category(msg)) == 107018,
        msg is ListenAuthorityRelinquished ==> world_key(world_category(msg)) == 101034,
        msg is GetAuthorityFrom ==> world_key(world_category(msg)) == 117023,
        msg is RequestAuthorityTransfer ==> world_key(world_category(msg)) == 101031,
        msg is TransferOk ==> world_key(world_category(msg)) == 115017,
        msg is TransferFailed ==> world_key(world_category(msg)) == 115021,
        msg is NotifyNewAuthority ==> world_key(world_category(msg)) == 102025,
{
    reveal_strlit("World::RequestAuthority");
    reveal_strlit("World::AskForAuthority");
    reveal_strlit("World::GetChunk");
    reveal_strlit("World::LoseAuthority");
    reveal_strlit("World::ChangePriority");
    reveal_strlit("World::GotAuthority");
    reveal_strlit("World::RelinquishAuthority");
    reveal_strlit("World::UpdateStorage");
    reveal_strlit("World::AuthorityAlreadyTaken");
    reveal_strlit("World::ListenRequest");
    reveal_strlit("World::ListenStopRequest");
    reveal_strlit("World::UnloadChunk");
    reveal_strlit("World::ListenInitialResponse");
    reveal_strlit("World::ListenUpdate");
    reveal_strlit("World::ChunkPacket");
    reveal_strlit("World::ListenAuthorityRelinquished");
    reveal_strlit("World::GetAuthorityFrom");
    reveal_strlit("World::RequestAuthorityTransfer");
    reveal_strlit("World::TransferOk");
    reveal_strlit("World::TransferFailed");
    reveal_strlit("World::NotifyNewAuthority");
}

/// Tells the categories of messages of the game's entity synchronisation apart.
spec fn des_to_proxy_key(text: Seq<char>) -> int {
    text[text.len() - 13] as int
}

/// Messages of the game's entity synchronisation of different kinds are counted under different categories.
pub proof fn lemma_des_to_proxy_categories_differ(a: DesToProxy, b: DesToProxy)
    requires
        des_to_proxy_category(a) == des_to_proxy_category(b),
    ensures
        a is DeleteEntity <==> b is DeleteEntity,
        a is ReleaseAuthority <==> b is ReleaseAuthority,
        a is RequestAuthority <==> b is RequestAuthority,
        a is UpdatePosition <==> b is UpdatePosition,
        a is UpdatePositions <==> b is UpdatePositions,
        a is TransferAuthorityTo <==> b is TransferAuthorityTo,
        a is UpdateWand <==> b is UpdateWand,
{
    lemma_des_to_proxy_key(a);
    lemma_des_to_proxy_key(b);
}

/// What the categories of messages of the game's entity synchronisation are told apart by, and their
/// family.
proof fn lemma_des_to_proxy_key(msg: DesToProxy)
    ensures
        family(des_to_proxy_category(msg)) == 3,
        msg is DeleteEntity ==> des_to_proxy_key(des_to_proxy_category(msg)) == 58,
        msg is ReleaseAuthority ==> des_to_proxy_key(des_to_proxy_category(msg)) == 101,
        msg is RequestAuthority ==> des_to_proxy_key(des_to_proxy_category(msg)) == 117,
        msg is UpdatePosition ==> des_to_proxy_key(des_to_proxy_category(msg)) == 112,
        msg is UpdatePositions ==> des_to_proxy_key(des_to_proxy_category(msg)) == 100,
        msg is TransferAuthorityTo ==> des_to_proxy_key(des_to_proxy_category(msg)) == 115,
        msg is UpdateWand ==> des_to_proxy_key(des_to_proxy_category(msg)) == 121,
{
    reveal_strlit("DesToProxy::DeleteEntity");
    reveal_strlit("DesToProxy::ReleaseAuthority");
    reveal_strlit("DesToProxy::RequestAuthority");
    reveal_strlit("DesToProxy::UpdatePosition");
    reveal_strlit("DesToProxy::UpdatePositions");
    reveal_strlit("DesToProxy::TransferAuthority");
    reveal_strlit("DesToProxy::UpdateWand");
}

/// Tells the categories of messages to the game's entity synchronisation apart.
spec fn proxy_to_des_key(text: Seq<char>) -> int {
    text[text.len() - 5] as int
}

/// Messages to the game's entity synchronisation of different kinds are counted under different categories.
pub proof fn lemma_proxy_to_des_categories_differ(a: ProxyToDes, b: ProxyToDes)
    requires
        proxy_to_des_category(a) == proxy_to_des_category(b),
    ensures
        a is GotAuthority <==> b is GotAuthority,
        a is GotAuthoritys <==> b is GotAuthoritys,
        a is RemoveEntities <==> b is RemoveEntities,
        a is DeleteEntity <==> b is DeleteEntity,
{
    lemma_proxy_to_des_key(a);
    lemma_proxy_to_des_key(b);
}

/// What the categories of messages to the game's entity synchronisation are told apart by, and their
/// family.
proof fn lemma_proxy_to_des_key(msg: ProxyToDes)
    ensures
        family(proxy_to_des_category(msg)) == 4,
        msg is GotAuthority ==> proxy_to_des_key(proxy_to_des_category(msg)) == 111,
        msg is GotAuthoritys ==> proxy_to_des_key(proxy_to_des_category(msg)) == 114,
        msg is RemoveEntities ==> proxy_to_des_key(proxy_to_des_category(msg)) == 105,
        msg is DeleteEntity ==> proxy_to_des_key(proxy_to_des_category(msg)) == 110,
{
    reveal_strlit("ProxyToDes::GotAuthority");
    reveal_strlit("ProxyToDes::GotAuthoritys");
    reveal_strlit("ProxyToDes::RemoveEntities");
    reveal_strlit("ProxyToDes::DeleteEntity");
}

/// Tells the categories of entity synchronisation messages apart.
spec fn remote_des_key(text: Seq<char>) -> int {
    text.len() + 1000 * (text[12] as int)
}

/// Whether a message is a batch of updates that ends an entity.
pub open spec fn is_entity_death(msg: RemoteDes) -> bool {
    msg matches RemoteDes::EntityUpdate(updates) && exists|i: int|
        0 <= i < updates@.len() && ends_entity(#[trigger] updates@[i])
}

/// Entity synchronisation messages of different kinds are counted under different
/// categories, and batches of updates that end an entity under another one than batches
/// that do not.
pub proof fn lemma_remote_des_categories_differ(a: RemoteDes, b: RemoteDes)
    requires
        remote_des_category(a) == remote_des_category(b),
    ensures
        a is Reset <==> b is Reset,
        a is InterestRequest <==> b is InterestRequest,
        a is EntityUpdate <==> b is EntityUpdate,
        a is EntityInit <==> b is EntityInit,
        a is ExitedInterest <==> b is ExitedInterest,
        a is Projectiles <==> b is Projectiles,
        a is RequestGrab <==> b is RequestGrab,
        a is CameraPos <==> b is CameraPos,
        a is DeadEntities <==> b is DeadEntities,
        a is SpawnOnce <==> b is SpawnOnce,
        a is ChestOpen <==> b is ChestOpen,
        a is ChestOpenRequest <==> b is ChestOpenRequest,
        is_entity_death(a) <==> is_entity_death(b),
{
    lemma_remote_des_key(a);
    lemma_remote_des_key(b);
}

/// What the categories of entity synchronisation messages are told apart by, and their
/// family.
proof fn lemma_remote_des_key(msg: RemoteDes)
    ensures
        family(remote_des_category(msg)) == 2,
        msg is Reset ==> remote_des_key(remote_des_category(msg)) == 101016,
        msg is InterestRequest ==> remote_des_key(remote_des_category(msg)) == 110026,
        msg is EntityInit ==> remote_des_key(remote_des_category(msg)) == 110021,
        msg is ExitedInterest ==> remote_des_key(remote_des_category(msg)) == 120025,
        msg is Projectiles ==> remote_des_key(remote_des_category(msg)) == 114022,
        msg is RequestGrab ==> remote_des_key(remote_des_category(msg)) == 101022,
        msg is CameraPos ==> remote_des_key(remote_des_category(msg)) == 97020,
        msg is DeadEntities ==> remote_des_key(remote_des_category(msg)) == 101023,
        msg is SpawnOnce ==> remote_des_key(remote_des_category(msg)) == 112020,
        msg is ChestOpen ==> remote_des_key(remote_des_category(msg)) == 104020,
        msg is ChestOpenRequest ==> remote_des_key(remote_des_category(msg)) == 104027,
        is_entity_death(msg) ==> remote_des_key(remote_des_category(msg)) == 110022,
        msg is EntityUpdate && !is_entity_death(msg) ==> remote_des_key(remote_des_category(msg))
            == 110023,
{
    reveal_strlit("RemoteDes::Reset");
    reveal_strlit("RemoteDes::InterestRequest");
    reveal_strlit("RemoteDes::EntityInit");
    reveal_strlit("RemoteDes::ExitedInterest");
    reveal_strlit("RemoteDes::Projectiles");
    reveal_strlit("RemoteDes::RequestGrab");
    reveal_strlit("RemoteDes::CameraPos");
    reveal_strlit("RemoteDes::DeadEntities");
    reveal_strlit("RemoteDes::SpawnOnce");
    reveal_strlit("RemoteDes::ChestOpen");
    reveal_strlit("RemoteDes::ChestOpenRequest");
    reveal_strlit("RemoteDes::EntityDeath");
    reveal_strlit("RemoteDes::EntityUpdate");
}

/// Tells the categories of messages that have no inner message apart.
spec fn plain_key(text: Seq<char>) -> int {
    (text[0] as int) + 1000 * (text[2] as int) + 1000000 * (text[text.len() - 3] as int)
}

/// What the categories of messages that have no inner message are told apart by.
proof fn lemma_plain_key(msg: NetMsg)
    ensures
        msg is Welcome ==> plain_key(net_category(msg)) == 111108087,
        msg is RequestMods ==> plain_key(net_category(msg)) == 111113082,
        msg is Mods ==> plain_key(net_category(msg)) == 111100077,
        msg is EndRun ==> plain_key(net_category(msg)) == 82100069,
        msg is Kick ==> plain_key(net_category(msg)) == 105099075,
        msg is Ping ==> plain_key(net_category(msg)) == 105110080,
        msg is Pong ==> plain_key(net_category(msg)) == 111110080,
        msg is PeerDisconnected ==> plain_key(net_category(msg)) == 116101080,
        msg is StartGame ==> plain_key(net_category(msg)) == 97097083,
        msg is ModRaw ==> plain_key(net_category(msg)) == 82100077,
        msg is ModCompressed ==> plain_key(net_category(msg)) == 115100077,
        msg is PlayerColor ==> plain_key(net_category(msg)) == 108097080,
        msg is ForwardProxyToWorldSync ==> plain_key(net_category(msg)) == 121114070,
        msg is NoitaDisconnected ==> plain_key(net_category(msg)) == 116105078,
        msg is Flags ==> plain_key(net_category(msg)) == 97097070,
        msg is RespondFlagNormal ==> plain_key(net_category(msg)) == 109115082,
        msg is RespondFlagSlow ==> plain_key(net_category(msg)) == 108115082,
        msg is RespondFlagMoon ==> plain_key(net_category(msg)) == 111115082,
        msg is PlayerPosition ==> plain_key(net_category(msg)) == 105097080,
        msg is RespondFlagStevari ==> plain_key(net_category(msg)) == 97115082,
        msg is AudioData ==> plain_key(net_category(msg)) == 97100065,
        msg is MapData ==> plain_key(net_category(msg)) == 97112077,
        msg is MatData ==> plain_key(net_category(msg)) == 97116077,
        !(msg is WorldMessage) && !(msg is RemoteMsg) && !(msg is ForwardDesToProxy) && !(
        msg is ForwardProxyToDes) ==> family(net_category(msg)) == 0,
{
    reveal_strlit("Welcome");
    reveal_strlit("RequestMods");
    reveal_strlit("Mods");
    reveal_strlit("EndRun");
    reveal_strlit("Kick");
    reveal_strlit("Ping");
    reveal_strlit("Pong");
    reveal_strlit("PeerDisconnected");
    reveal_strlit("StartGame");
    reveal_strlit("ModRaw");
    reveal_strlit("ModCompressed");
    reveal_strlit("PlayerColor");
    reveal_strlit("ForwardProxyToWorldSync");
    reveal_strlit("NoitaDisconnected");
    reveal_strlit("Flags");
    reveal_strlit("RespondFlagNormal");
    reveal_strlit("RespondFlagSlow");
    reveal_strlit("RespondFlagMoon");
    reveal_strlit("PlayerPosition");
    reveal_strlit("RespondFlagStevari");
    reveal_strlit("AudioData");
    reveal_strlit("MapData");
    reveal_strlit("MatData");
}

/// The family of a message.
proof fn lemma_family(msg: NetMsg)
    ensures
        msg is WorldMessage ==> family(net_category(msg)) == 1,
        msg is RemoteMsg ==> family(net_category(msg)) == 2,
        msg is ForwardDesToProxy ==> family(net_category(msg)) == 3,
        msg is ForwardProxyToDes ==> family(net_category(msg)) == 4,
{
    match msg {
        NetMsg::WorldMessage(msg) => lemma_world_key(msg),
        NetMsg::RemoteMsg(RemoteMessage::RemoteDes(msg)) => lemma_remote_des_key(msg),
        NetMsg::ForwardDesToProxy(msg) => lemma_des_to_proxy_key(msg),
        NetMsg::ForwardProxyToDes(msg) => lemma_proxy_to_des_key(msg),
        _ => {},
    }
}

/// Messages between proxies of different kinds are counted under different categories.
/// Where a message holds another one, it is the inner message that is counted.
pub proof fn lemma_categories_differ(a: NetMsg, b: NetMsg)
    requires
        net_category(a) == net_category(b),
    ensures
        a is Welcome <==> b is Welcome,
        a is RequestMods <==> b is RequestMods,
        a is Mods <==> b is Mods,
        a is EndRun <==> b is EndRun,
        a is Kick <==> b is Kick,
        a is Ping <==> b is Ping,
        a is Pong <==> b is Pong,
        a is PeerDisconnected <==> b is PeerDisconnected,
        a is StartGame <==> b is StartGame,
        a is ModRaw <==> b is ModRaw,
        a is ModCompressed <==> b is ModCompressed,
        a is WorldMessage <==> b is WorldMessage,
        a is PlayerColor <==> b is PlayerColor,
        a is RemoteMsg <==> b is RemoteMsg,
        a is ForwardDesToProxy <==> b is ForwardDesToProxy,
        a is ForwardProxyToDes <==> b is ForwardProxyToDes,
        a is ForwardProxyToWorldSync <==> b is ForwardProxyToWorldSync,
        a is NoitaDisconnected <==> b is NoitaDisconnected,
        a is Flags <==> b is Flags,
        a is RespondFlagNormal <==> b is RespondFlagNormal,
        a is RespondFlagSlow <==> b is RespondFlagSlow,
        a is RespondFlagMoon <==> b is RespondFlagMoon,
        a is PlayerPosition <==> b is PlayerPosition,
        a is RespondFlagStevari <==> b is RespondFlagStevari,
        a is AudioData <==> b is AudioData,
        a is MapData <==> b is MapData,
        a is MatData <==> b is MatData,
        a is WorldMessage ==> world_category(a->WorldMessage_0) == world_category(
            b->WorldMessage_0,
        ),
        a is RemoteMsg ==> remote_category(a->RemoteMsg_0) == remote_category(b->RemoteMsg_0),
        a is ForwardDesToProxy ==> des_to_proxy_category(a->ForwardDesToProxy_0)
            == des_to_proxy_category(b->ForwardDesToProxy_0),
        a is ForwardProxyToDes ==> proxy_to_des_category(a->ForwardProxyToDes_0)
            == proxy_to_des_category(b->ForwardProxyToDes_0),
{
    lemma_family(a);
    lemma_family(b);
    lemma_plain_key(a);
    lemma_plain_key(b);
}

/// The category of a world synchronisation message depends on its kind alone.
pub proof fn lemma_world_names(msg: WorldNetMessage)
    ensures
        msg is RequestAuthority ==> world_category(msg) == "World::RequestAuthority"@,
        msg is AskForAuthority ==> world_category(msg) == "World::AskForAuthority"@,
        msg is GetChunk ==> world_category(msg) == "World::GetChunk"@,
        msg is LoseAuthority ==> world_category(msg) == "World::LoseAuthority"@,
        msg is ChangePriority ==> world_category(msg) == "World::ChangePriority"@,
        msg is GotAuthority ==> world_category(msg) == "World::GotAuthority"@,
        msg is RelinquishAuthority ==> world_category(msg) == "World::RelinquishAuthority"@,
        msg is UpdateStorage ==> world_category(msg) == "World::UpdateStorage"@,
        msg is AuthorityAlreadyTaken ==> world_category(msg) == "World::AuthorityAlreadyTaken"@,
        msg is ListenRequest ==> world_category(msg) == "World::ListenRequest"@,
        msg is ListenStopRequest ==> world_category(msg) == "World::ListenStopRequest"@,
        msg is UnloadChunk ==> world_category(msg) == "World::UnloadChunk"@,
        msg is ListenInitialResponse ==> world_category(msg) == "World::ListenInitialResponse"@,
        msg is ListenUpdate ==> world_category(msg) == "World::ListenUpdate"@,
        msg is ChunkPacket ==> world_category(msg) == "World::ChunkPacket"@,
        msg is ListenAuthorityRelinquished ==> world_category(msg)
            == "World::ListenAuthorityRelinquished"@,
        msg is GetAuthorityFrom ==> world_category(msg) == "World::GetAuthorityFrom"@,
        msg is RequestAuthorityTransfer ==> world_category(msg)
            == "World::RequestAuthorityTransfer"@,
        msg is TransferOk ==> world_category(msg) == "World::TransferOk"@,
        msg is TransferFailed ==> world_category(msg) == "World::TransferFailed"@,
        msg is NotifyNewAuthority ==> world_category(msg) == "World::NotifyNewAuthority"@,
{
}

/// The category of a message of the game's entity synchronisation depends on its kind alone.
pub proof fn lemma_des_to_proxy_names(msg: DesToProxy)
    ensures
        msg is DeleteEntity ==> des_to_proxy_category(msg) == "DesToProxy::DeleteEntity"@,
        msg is ReleaseAuthority ==> des_to_proxy_category(msg) == "DesToProxy::ReleaseAuthority"@,
        msg is RequestAuthority ==> des_to_proxy_category(msg) == "DesToProxy::RequestAuthority"@,
        msg is UpdatePosition ==> des_to_proxy_category(msg) == "DesToProxy::UpdatePosition"@,
        msg is UpdatePositions ==> des_to_proxy_category(msg) == "DesToProxy::UpdatePositions"@,
        msg is TransferAuthorityTo ==> des_to_proxy_category(msg)
            == "DesToProxy::TransferAuthority"@,
        msg is UpdateWand ==> des_to_proxy_category(msg) == "DesToProxy::UpdateWand"@,
{
}

/// The category of a message to the game's entity synchronisation depends on its kind alone.
pub proof fn lemma_proxy_to_des_names(msg: ProxyToDes)
    ensures
        msg is GotAuthority ==> proxy_to_des_category(msg) == "ProxyToDes::GotAuthority"@,
        msg is GotAuthoritys ==> proxy_to_des_category(msg) == "ProxyToDes::GotAuthoritys"@,
        msg is RemoveEntities ==> proxy_to_des_category(msg) == "ProxyToDes::RemoveEntities"@,
        msg is DeleteEntity ==> proxy_to_des_category(msg) == "ProxyToDes::DeleteEntity"@,
{
}

/// A batch of entity updates is counted as a death exactly where one of its updates kills
/// or removes an entity. Other updates do not matter, whatever they hold.
pub proof fn lemma_entity_updates_names(updates: Seq<EntityUpdate>)
    ensures
        entity_updates_category(updates) == "RemoteDes::EntityDeath"@ <==> exists|i: int|
            0 <= i < updates.len() && (#[trigger] updates[i] is KillEntity
                || updates[i] is RemoveEntity),
        entity_updates_category(updates) == "RemoteDes::EntityUpdate"@ <==> forall|i: int|
            0 <= i < updates.len() ==> (#[trigger] updates[i] is SetHp || updates[i] is Other),
{
    reveal_strlit("RemoteDes::EntityDeath");
    reveal_strlit("RemoteDes::EntityUpdate");
    assert("RemoteDes::EntityDeath"@.len() != "RemoteDes::EntityUpdate"@.len());
    if exists|i: int|
        0 <= i < updates.len() && (#[trigger] updates[i] is KillEntity
            || updates[i] is RemoveEntity) {
        let i = choose|i: int|
            0 <= i < updates.len() && (#[trigger] updates[i] is KillEntity
                || updates[i] is RemoveEntity);
        assert(ends_entity(updates[i]));
    }
}

/// Of two batches sent as one, it takes one death to make the whole a death.
pub proof fn lemma_joined_updates(first: Seq<EntityUpdate>, second: Seq<EntityUpdate>)
    ensures
        entity_updates_category(first + second) == "RemoteDes::EntityDeath"@ <==> (
        entity_updates_category(first) == "RemoteDes::EntityDeath"@ || entity_updates_category(
            second,
        ) == "RemoteDes::EntityDeath"@),
{
    lemma_entity_updates_names(first);
    lemma_entity_updates_names(second);
    lemma_entity_updates_names(first + second);
    let both = first + second;
    if exists|i: int|
        0 <= i < both.len() && (#[trigger] both[i] is KillEntity || both[i] is RemoveEntity) {
        let i = choose|i: int|
            0 <= i < both.len() && (#[trigger] both[i] is KillEntity || both[i] is RemoveEntity);
        if i < first.len() {
            assert(first[i] == both[i]);
        } else {
            assert(second[i - first.len()] == both[i]);
        }
    }
    assert forall|i: int| 0 <= i < first.len() implies #[trigger] first[i] == both[i] by {}
    assert forall|i: int| 0 <= i < second.len() implies #[trigger] second[i] == both[i
        + first.len()] by {}
}

/// The category of an entity synchronisation message depends on its kind alone, but for
/// batches of updates.
pub proof fn lemma_remote_des_names(msg: RemoteDes)
    ensures
        msg is Reset ==> remote_des_category(msg) == "RemoteDes::Reset"@,
        msg is InterestRequest ==> remote_des_category(msg) == "RemoteDes::InterestRequest"@,
        msg is EntityInit ==> remote_des_category(msg) == "RemoteDes::EntityInit"@,
        msg is ExitedInterest ==> remote_des_category(msg) == "RemoteDes::ExitedInterest"@,
        msg is Projectiles ==> remote_des_category(msg) == "RemoteDes::Projectiles"@,
        msg is RequestGrab ==> remote_des_category(msg) == "RemoteDes::RequestGrab"@,
        msg is CameraPos ==> remote_des_category(msg) == "RemoteDes::CameraPos"@,
        msg is DeadEntities ==> remote_des_category(msg) == "RemoteDes::DeadEntities"@,
        msg is SpawnOnce ==> remote_des_category(msg) == "RemoteDes::SpawnOnce"@,
        msg is ChestOpen ==> remote_des_category(msg) == "RemoteDes::ChestOpen"@,
        msg is ChestOpenRequest ==> remote_des_category(msg) == "RemoteDes::ChestOpenRequest"@,
        msg matches RemoteDes::EntityUpdate(updates) ==> remote_des_category(msg) == (if exists|
            i: int,
        |
            0 <= i < updates@.len() && (#[trigger] updates@[i] is KillEntity
                || updates@[i] is RemoveEntity) {
            "RemoteDes::EntityDeath"@
        } else {
            "RemoteDes::EntityUpdate"@
        }),
{
    if let RemoteDes::EntityUpdate(updates) = msg {
        lemma_entity_updates_names(updates@);
    }
}

/// A message to the game is counted as what it holds.
pub proof fn lemma_remote_names(msg: RemoteMessage)
    ensures
        msg matches RemoteMessage::RemoteDes(inner) ==> remote_category(msg)
            == remote_des_category(inner),
{
}

/// The category of a message between proxies depends on its kind alone; one that holds
/// another message is counted as that one.
pub proof fn lemma_net_names(msg: NetMsg)
    ensures
        msg is Welcome ==> net_category(msg) == "Welcome"@,
        msg is RequestMods ==> net_category(msg) == "RequestMods"@,
        msg is Mods ==> net_category(msg) == "Mods"@,
        msg is EndRun ==> net_category(msg) == "EndRun"@,
        msg is Kick ==> net_category(msg) == "Kick"@,
        msg is Ping ==> net_category(msg) == "Ping"@,
        msg is Pong ==> net_category(msg) == "Pong"@,
        msg is PeerDisconnected ==> net_category(msg) == "PeerDisconnected"@,
        msg is StartGame ==> net_category(msg) == "StartGame"@,
        msg is ModRaw ==> net_category(msg) == "ModRaw"@,
        msg is ModCompressed ==> net_category(msg) == "ModCompressed"@,
        msg matches NetMsg::WorldMessage(inner) ==> net_category(msg) == world_category(inner),
        msg is PlayerColor ==> net_category(msg) == "PlayerColor"@,
        msg matches NetMsg::RemoteMsg(inner) ==> net_category(msg) == remote_category(inner),
        msg matches NetMsg::ForwardDesToProxy(inner) ==> net_category(msg)
            == des_to_proxy_category(inner),
        msg matches NetMsg::ForwardProxyToDes(inner) ==> net_category(msg)
            == proxy_to_des_category(inner),
        msg is ForwardProxyToWorldSync ==> net_category(msg) == "ForwardProxyToWorldSync"@,
        msg is NoitaDisconnected ==> net_category(msg) == "NoitaDisconnected"@,
        msg is Flags ==> net_category(msg) == "Flags"@,
        msg is RespondFlagNormal ==> net_category(msg) == "RespondFlagNormal"@,
        msg is RespondFlagSlow ==> net_category(msg) == "RespondFlagSlow"@,
        msg is RespondFlagMoon ==> net_category(msg) == "RespondFlagMoon"@,
        msg is PlayerPosition ==> net_category(msg) == "PlayerPosition"@,
        msg is RespondFlagStevari ==> net_category(msg) == "RespondFlagStevari"@,
        msg is AudioData ==> net_category(msg) == "AudioData"@,
        msg is MapData ==> net_category(msg) == "MapData"@,
        msg is MatData ==> net_category(msg) == "MatData"@,
{
}

} // verus!
