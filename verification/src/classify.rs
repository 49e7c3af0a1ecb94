//! Sorts messages into the categories that traffic is reported under.

use vstd::prelude::*;

use crate::message::{
    DesToProxy, EntityUpdate, NetMsg, ProxyToDes, RemoteDes, RemoteMessage, WorldNetMessage,
};

verus! {

/// What a message between proxies is counted as.
pub open spec fn net_category(msg: NetMsg) -> Seq<char> {
    match msg {
        NetMsg::Welcome => "Welcome"@,
        NetMsg::RequestMods => "RequestMods"@,
        NetMsg::Mods => "Mods"@,
        NetMsg::EndRun => "EndRun"@,
        NetMsg::Kick => "Kick"@,
        NetMsg::Ping(_) => "Ping"@,
        NetMsg::Pong(_) => "Pong"@,
        NetMsg::PeerDisconnected => "PeerDisconnected"@,
        NetMsg::StartGame => "StartGame"@,
        NetMsg::ModRaw => "ModRaw"@,
        NetMsg::ModCompressed => "ModCompressed"@,
        NetMsg::WorldMessage(msg) => world_category(msg),
        NetMsg::PlayerColor => "PlayerColor"@,
        NetMsg::RemoteMsg(msg) => remote_category(msg),
        NetMsg::ForwardDesToProxy(msg) => des_to_proxy_category(msg),
        NetMsg::ForwardProxyToDes(msg) => proxy_to_des_category(msg),
        NetMsg::ForwardProxyToWorldSync(_) => "ForwardProxyToWorldSync"@,
        NetMsg::NoitaDisconnected => "NoitaDisconnected"@,
        NetMsg::Flags => "Flags"@,
        NetMsg::RespondFlagNormal => "RespondFlagNormal"@,
        NetMsg::RespondFlagSlow => "RespondFlagSlow"@,
        NetMsg::RespondFlagMoon => "RespondFlagMoon"@,
        NetMsg::PlayerPosition(..) => "PlayerPosition"@,
        NetMsg::RespondFlagStevari => "RespondFlagStevari"@,
        NetMsg::AudioData => "AudioData"@,
        NetMsg::MapData(_) => "MapData"@,
        NetMsg::MatData(_) => "MatData"@,
    }
}

/// What a message to the game is counted as.
pub open spec fn remote_category(msg: RemoteMessage) -> Seq<char> {
    match msg {
        RemoteMessage::RemoteDes(des) => remote_des_category(des),
    }
}

/// What an entity synchronisation message is counted as.
pub open spec fn remote_des_category(msg: RemoteDes) -> Seq<char> {
    match msg {
        RemoteDes::Reset => "RemoteDes::Reset"@,
        RemoteDes::InterestRequest => "RemoteDes::InterestRequest"@,
        RemoteDes::EntityUpdate(updates) => entity_updates_category(updates@),
        RemoteDes::EntityInit => "RemoteDes::EntityInit"@,
        RemoteDes::ExitedInterest => "RemoteDes::ExitedInterest"@,
        RemoteDes::Projectiles => "RemoteDes::Projectiles"@,
        RemoteDes::RequestGrab => "RemoteDes::RequestGrab"@,
        RemoteDes::CameraPos => "RemoteDes::CameraPos"@,
        RemoteDes::DeadEntities => "RemoteDes::DeadEntities"@,
        RemoteDes::SpawnOnce => "RemoteDes::SpawnOnce"@,
        RemoteDes::ChestOpen => "RemoteDes::ChestOpen"@,
        RemoteDes::ChestOpenRequest => "RemoteDes::ChestOpenRequest"@,
    }
}

/// What a forwarded message to the game's entity synchronisation is counted as.
pub open spec fn proxy_to_des_category(msg: ProxyToDes) -> Seq<char> {
    match msg {
        ProxyToDes::GotAuthority => "ProxyToDes::GotAuthority"@,
        ProxyToDes::GotAuthoritys => "ProxyToDes::GotAuthoritys"@,
        ProxyToDes::RemoveEntities => "ProxyToDes::RemoveEntities"@,
        ProxyToDes::DeleteEntity => "ProxyToDes::DeleteEntity"@,
    }
}

/// What a forwarded message of the game's entity synchronisation is counted as.
pub open spec fn des_to_proxy_category(msg: DesToProxy) -> Seq<char> {
    match msg {
        DesToProxy::DeleteEntity => "DesToProxy::DeleteEntity"@,
        DesToProxy::ReleaseAuthority => "DesToProxy::ReleaseAuthority"@,
        DesToProxy::RequestAuthority => "DesToProxy::RequestAuthority"@,
        DesToProxy::UpdatePosition => "DesToProxy::UpdatePosition"@,
        DesToProxy::UpdatePositions => "DesToProxy::UpdatePositions"@,
        DesToProxy::TransferAuthorityTo => "DesToProxy::TransferAuthority"@,
        DesToProxy::UpdateWand => "DesToProxy::UpdateWand"@,
    }
}

/// What a world synchronisation message is counted as.
pub open spec fn world_category(msg: WorldNetMessage) -> Seq<char> {
    match msg {
        WorldNetMessage::RequestAuthority => "World::RequestAuthority"@,
        WorldNetMessage::AskForAuthority => "World::AskForAuthority"@,
        WorldNetMessage::GetChunk => "World::GetChunk"@,
        WorldNetMessage::LoseAuthority => "World::LoseAuthority"@,
        WorldNetMessage::ChangePriority => "World::ChangePriority"@,
        WorldNetMessage::GotAuthority => "World::GotAuthority"@,
        WorldNetMessage::RelinquishAuthority => "World::RelinquishAuthority"@,
        WorldNetMessage::UpdateStorage => "World::UpdateStorage"@,
        WorldNetMessage::AuthorityAlreadyTaken => "World::AuthorityAlreadyTaken"@,
        WorldNetMessage::ListenRequest => "World::ListenRequest"@,
        WorldNetMessage::ListenStopRequest => "World::ListenStopRequest"@,
        WorldNetMessage::UnloadChunk => "World::UnloadChunk"@,
        WorldNetMessage::ListenInitialResponse => "World::ListenInitialResponse"@,
        WorldNetMessage::ListenUpdate => "World::ListenUpdate"@,
        WorldNetMessage::ChunkPacket { .. } => "World::ChunkPacket"@,
        WorldNetMessage::ListenAuthorityRelinquished => "World::ListenAuthorityRelinquished"@,
        WorldNetMessage::GetAuthorityFrom => "World::GetAuthorityFrom"@,
        WorldNetMessage::RequestAuthorityTransfer => "World::RequestAuthorityTransfer"@,
        WorldNetMessage::TransferOk => "World::TransferOk"@,
        WorldNetMessage::TransferFailed => "World::TransferFailed"@,
        WorldNetMessage::NotifyNewAuthority => "World::NotifyNewAuthority"@,
    }
}

/// Whether an update ends the entity that it speaks of.
pub open spec fn ends_entity(update: EntityUpdate) -> bool {
    update is KillEntity || update is RemoveEntity
}

/// What a batch of entity updates is counted as: a batch that ends any entity is
/// told apart from one that ends none.
pub open spec fn entity_updates_category(updates: Seq<EntityUpdate>) -> Seq<char> {
    if exists|i: int| 0 <= i < updates.len() && ends_entity(#[trigger] updates[i]) {
        "RemoteDes::EntityDeath"@
    } else {
        "RemoteDes::EntityUpdate"@
    }
}

/// Names the category that a message between proxies is counted under.
pub fn classify_net_msg(msg: &NetMsg) -> (category: &'static str)
    ensures
        category@ == net_category(*msg),
{
    match msg {
        NetMsg::Welcome => "Welcome",
        NetMsg::RequestMods => "RequestMods",
        NetMsg::Mods => "Mods",
        NetMsg::EndRun => "EndRun",
        NetMsg::Kick => "Kick",
        NetMsg::Ping(_) => "Ping",
        NetMsg::Pong(_) => "Pong",
        NetMsg::PeerDisconnected => "PeerDisconnected",
        NetMsg::StartGame => "StartGame",
        NetMsg::ModRaw => "ModRaw",
        NetMsg::ModCompressed => "ModCompressed",
        NetMsg::WorldMessage(msg) => classify_world_msg(msg),
        NetMsg::PlayerColor => "PlayerColor",
        NetMsg::RemoteMsg(msg) => classify_remote_msg(msg),
        NetMsg::ForwardDesToProxy(msg) => classify_des_to_proxy(msg),
        NetMsg::ForwardProxyToDes(msg) => classify_proxy_to_des(msg),
        NetMsg::ForwardProxyToWorldSync(_) => "ForwardProxyToWorldSync",
        NetMsg::NoitaDisconnected => "NoitaDisconnected",
        NetMsg::Flags => "Flags",
        NetMsg::RespondFlagNormal => "RespondFlagNormal",
        NetMsg::RespondFlagSlow => "RespondFlagSlow",
        NetMsg::RespondFlagMoon => "RespondFlagMoon",
        NetMsg::PlayerPosition(..) => "PlayerPosition",
        NetMsg::RespondFlagStevari => "RespondFlagStevari",
        NetMsg::AudioData => "AudioData",
        NetMsg::MapData(_) => "MapData",
        NetMsg::MatData(_) => "MatData",
    }
}

/// Names the category that a message to the game is counted under.
pub fn classify_remote_msg(msg: &RemoteMessage) -> (category: &'static str)
    ensures
        category@ == remote_category(*msg),
{
    match msg {
        RemoteMessage::RemoteDes(des) => classify_remote_des(des),
    }
}

/// Names the category that an entity synchronisation message is counted under.
pub fn classify_remote_des(msg: &RemoteDes) -> (category: &'static str)
    ensures
        category@ == remote_des_category(*msg),
{
    match msg {
        RemoteDes::Reset => "RemoteDes::Reset",
        RemoteDes::InterestRequest => "RemoteDes::InterestRequest",
        RemoteDes::EntityUpdate(updates) => classify_entity_updates(updates),
        RemoteDes::EntityInit => "RemoteDes::EntityInit",
        RemoteDes::ExitedInterest => "RemoteDes::ExitedInterest",
        RemoteDes::Projectiles => "RemoteDes::Projectiles",
        RemoteDes::RequestGrab => "RemoteDes::RequestGrab",
        RemoteDes::CameraPos => "RemoteDes::CameraPos",
        RemoteDes::DeadEntities => "RemoteDes::DeadEntities",
        RemoteDes::SpawnOnce => "RemoteDes::SpawnOnce",
        RemoteDes::ChestOpen => "RemoteDes::ChestOpen",
        RemoteDes::ChestOpenRequest => "RemoteDes::ChestOpenRequest",
    }
}

/// Names the category that a forwarded message to the game's entity synchronisation is counted under.
pub fn classify_proxy_to_des(msg: &ProxyToDes) -> (category: &'static str)
    ensures
        category@ == proxy_to_des_category(*msg),
{
    match msg {
        ProxyToDes::GotAuthority => "ProxyToDes::GotAuthority",
        ProxyToDes::GotAuthoritys => "ProxyToDes::GotAuthoritys",
        ProxyToDes::RemoveEntities => "ProxyToDes::RemoveEntities",
        ProxyToDes::DeleteEntity => "ProxyToDes::DeleteEntity",
    }
}

/// Names the category that a forwarded message of the game's entity synchronisation is counted under.
pub fn classify_des_to_proxy(msg: &DesToProxy) -> (category: &'static str)
    ensures
        category@ == des_to_proxy_category(*msg),
{
    match msg {
        DesToProxy::DeleteEntity => "DesToProxy::DeleteEntity",
        DesToProxy::ReleaseAuthority => "DesToProxy::ReleaseAuthority",
        DesToProxy::RequestAuthority => "DesToProxy::RequestAuthority",
        DesToProxy::UpdatePosition => "DesToProxy::UpdatePosition",
        DesToProxy::UpdatePositions => "DesToProxy::UpdatePositions",
        DesToProxy::TransferAuthorityTo => "DesToProxy::TransferAuthority",
        DesToProxy::UpdateWand => "DesToProxy::UpdateWand",
    }
}

/// Names the category that a world synchronisation message is counted under.
pub fn classify_world_msg(msg: &WorldNetMessage) -> (category: &'static str)
    ensures
        category@ == world_category(*msg),
{
    match msg {
        WorldNetMessage::RequestAuthority => "World::RequestAuthority",
        WorldNetMessage::AskForAuthority => "World::AskForAuthority",
        WorldNetMessage::GetChunk => "World::GetChunk",
        WorldNetMessage::LoseAuthority => "World::LoseAuthority",
        WorldNetMessage::ChangePriority => "World::ChangePriority",
        WorldNetMessage::GotAuthority => "World::GotAuthority",
        WorldNetMessage::RelinquishAuthority => "World::RelinquishAuthority",
        WorldNetMessage::UpdateStorage => "World::UpdateStorage",
        WorldNetMessage::AuthorityAlreadyTaken => "World::AuthorityAlreadyTaken",
        WorldNetMessage::ListenRequest => "World::ListenRequest",
        WorldNetMessage::ListenStopRequest => "World::ListenStopRequest",
        WorldNetMessage::UnloadChunk => "World::UnloadChunk",
        WorldNetMessage::ListenInitialResponse => "World::ListenInitialResponse",
        WorldNetMessage::ListenUpdate => "World::ListenUpdate",
        WorldNetMessage::ChunkPacket { .. } => "World::ChunkPacket",
        WorldNetMessage::ListenAuthorityRelinquished => "World::ListenAuthorityRelinquished",
        WorldNetMessage::GetAuthorityFrom => "World::GetAuthorityFrom",
        WorldNetMessage::RequestAuthorityTransfer => "World::RequestAuthorityTransfer",
        WorldNetMessage::TransferOk => "World::TransferOk",
        WorldNetMessage::TransferFailed => "World::TransferFailed",
        WorldNetMessage::NotifyNewAuthority => "World::NotifyNewAuthority",
    }
}

/// Names the category that a batch of entity updates is counted under.
pub fn classify_entity_updates(updates: &[EntityUpdate]) -> (category: &'static str)
    ensures
        category@ == entity_updates_category(updates@),
        (exists|i: int|
            0 <= i < updates@.len() && (#[trigger] updates@[i] is KillEntity
                || updates@[i] is RemoveEntity)) ==> category@ == "RemoteDes::EntityDeath"@,
        (forall|i: int|
            0 <= i < updates@.len() ==> !(#[trigger] updates@[i] is KillEntity) && !(
            updates@[i] is RemoveEntity)) ==> category@ == "RemoteDes::EntityUpdate"@,
{
    for i in 0..updates.len()
        invariant
            forall|j: int| 0 <= j < i ==> !ends_entity(#[trigger] updates@[j]),
    {
        if matches!(updates[i], EntityUpdate::KillEntity | EntityUpdate::RemoveEntity) {
            assert(ends_entity(updates@[i as int]));
            return "RemoteDes::EntityDeath";
        }
    }
    "RemoteDes::EntityUpdate"
}

} // verus!
