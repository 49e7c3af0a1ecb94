use entangled_net::classify::{
    classify_des_to_proxy, classify_entity_updates, classify_net_msg, classify_proxy_to_des,
    classify_remote_des, classify_remote_msg, classify_world_msg,
};
use entangled_net::message::{
    DesToProxy, EntityUpdate, NetMsg, ProxyToDes, ProxyToWorldSync, RemoteDes, RemoteMessage,
    WorldNetMessage,
};

#[test]
fn names_every_plain_message() {
    let named = [
        (NetMsg::Welcome, "Welcome"),
        (NetMsg::RequestMods, "RequestMods"),
        (NetMsg::Mods, "Mods"),
        (NetMsg::EndRun, "EndRun"),
        (NetMsg::Kick, "Kick"),
        (NetMsg::Ping(3), "Ping"),
        (NetMsg::Pong(3), "Pong"),
        (NetMsg::PeerDisconnected, "PeerDisconnected"),
        (NetMsg::StartGame, "StartGame"),
        (NetMsg::ModRaw, "ModRaw"),
        (NetMsg::ModCompressed, "ModCompressed"),
        (NetMsg::PlayerColor, "PlayerColor"),
        (
            NetMsg::ForwardProxyToWorldSync(ProxyToWorldSync::Updates(vec![vec![1]])),
            "ForwardProxyToWorldSync",
        ),
        (NetMsg::NoitaDisconnected, "NoitaDisconnected"),
        (NetMsg::Flags, "Flags"),
        (NetMsg::RespondFlagNormal, "RespondFlagNormal"),
        (NetMsg::RespondFlagSlow, "RespondFlagSlow"),
        (NetMsg::RespondFlagMoon, "RespondFlagMoon"),
        (NetMsg::PlayerPosition(0, 0, true, true), "PlayerPosition"),
        (NetMsg::RespondFlagStevari, "RespondFlagStevari"),
        (NetMsg::AudioData, "AudioData"),
        (NetMsg::MapData(vec![1]), "MapData"),
        (NetMsg::MatData(vec![1]), "MatData"),
    ];
    for (msg, name) in named {
        assert_eq!(classify_net_msg(&msg), name);
    }
}

#[test]
fn names_every_world_message() {
    let named = [
        (WorldNetMessage::RequestAuthority, "World::RequestAuthority"),
        (WorldNetMessage::AskForAuthority, "World::AskForAuthority"),
        (WorldNetMessage::GetChunk, "World::GetChunk"),
        (WorldNetMessage::LoseAuthority, "World::LoseAuthority"),
        (WorldNetMessage::ChangePriority, "World::ChangePriority"),
        (WorldNetMessage::GotAuthority, "World::GotAuthority"),
        (WorldNetMessage::RelinquishAuthority, "World::RelinquishAuthority"),
        (WorldNetMessage::UpdateStorage, "World::UpdateStorage"),
        (WorldNetMessage::AuthorityAlreadyTaken, "World::AuthorityAlreadyTaken"),
        (WorldNetMessage::ListenRequest, "World::ListenRequest"),
        (WorldNetMessage::ListenStopRequest, "World::ListenStopRequest"),
        (WorldNetMessage::UnloadChunk, "World::UnloadChunk"),
        (WorldNetMessage::ListenInitialResponse, "World::ListenInitialResponse"),
        (WorldNetMessage::ListenUpdate, "World::ListenUpdate"),
        (
            WorldNetMessage::ChunkPacket { chunkpacket: vec![] },
            "World::ChunkPacket",
        ),
        (
            WorldNetMessage::ListenAuthorityRelinquished,
            "World::ListenAuthorityRelinquished",
        ),
        (WorldNetMessage::GetAuthorityFrom, "World::GetAuthorityFrom"),
        (
            WorldNetMessage::RequestAuthorityTransfer,
            "World::RequestAuthorityTransfer",
        ),
        (WorldNetMessage::TransferOk, "World::TransferOk"),
        (WorldNetMessage::TransferFailed, "World::TransferFailed"),
        (WorldNetMessage::NotifyNewAuthority, "World::NotifyNewAuthority"),
    ];
    for (msg, name) in named {
        assert_eq!(classify_world_msg(&msg), name);
        assert_eq!(classify_net_msg(&NetMsg::WorldMessage(msg)), name);
    }
}

#[test]
fn names_every_entity_message() {
    let named = [
        (RemoteDes::Reset, "RemoteDes::Reset"),
        (RemoteDes::InterestRequest, "RemoteDes::InterestRequest"),
        (RemoteDes::EntityUpdate(vec![]), "RemoteDes::EntityUpdate"),
        (
            RemoteDes::EntityUpdate(vec![EntityUpdate::Other, EntityUpdate::KillEntity]),
            "RemoteDes::EntityDeath",
        ),
        (RemoteDes::EntityInit, "RemoteDes::EntityInit"),
        (RemoteDes::ExitedInterest, "RemoteDes::ExitedInterest"),
        (RemoteDes::Projectiles, "RemoteDes::Projectiles"),
        (RemoteDes::RequestGrab, "RemoteDes::RequestGrab"),
        (RemoteDes::CameraPos, "RemoteDes::CameraPos"),
        (RemoteDes::DeadEntities, "RemoteDes::DeadEntities"),
        (RemoteDes::SpawnOnce, "RemoteDes::SpawnOnce"),
        (RemoteDes::ChestOpen, "RemoteDes::ChestOpen"),
        (RemoteDes::ChestOpenRequest, "RemoteDes::ChestOpenRequest"),
    ];
    for (msg, name) in named {
        assert_eq!(classify_remote_des(&msg), name);
        let remote = RemoteMessage::RemoteDes(msg);
        assert_eq!(classify_remote_msg(&remote), name);
        assert_eq!(classify_net_msg(&NetMsg::RemoteMsg(remote)), name);
    }
}

#[test]
fn names_every_forwarded_message() {
    let to_proxy = [
        (DesToProxy::DeleteEntity, "DesToProxy::DeleteEntity"),
        (DesToProxy::ReleaseAuthority, "DesToProxy::ReleaseAuthority"),
        (DesToProxy::RequestAuthority, "DesToProxy::RequestAuthority"),
        (DesToProxy::UpdatePosition, "DesToProxy::UpdatePosition"),
        (DesToProxy::UpdatePositions, "DesToProxy::UpdatePositions"),
        (DesToProxy::TransferAuthorityTo, "DesToProxy::TransferAuthority"),
        (DesToProxy::UpdateWand, "DesToProxy::UpdateWand"),
    ];
    for (msg, name) in to_proxy {
        assert_eq!(classify_des_to_proxy(&msg), name);
        assert_eq!(classify_net_msg(&NetMsg::ForwardDesToProxy(msg)), name);
    }
    let to_des = [
        (ProxyToDes::GotAuthority, "ProxyToDes::GotAuthority"),
        (ProxyToDes::GotAuthoritys, "ProxyToDes::GotAuthoritys"),
        (ProxyToDes::RemoveEntities, "ProxyToDes::RemoveEntities"),
        (ProxyToDes::DeleteEntity, "ProxyToDes::DeleteEntity"),
    ];
    for (msg, name) in to_des {
        assert_eq!(classify_proxy_to_des(&msg), name);
        assert_eq!(classify_net_msg(&NetMsg::ForwardProxyToDes(msg)), name);
    }
}

#[test]
fn tells_batches_that_end_an_entity_apart() {
    assert_eq!(classify_entity_updates(&[]), "RemoteDes::EntityUpdate");
    assert_eq!(
        classify_entity_updates(&[EntityUpdate::SetHp(0), EntityUpdate::Other]),
        "RemoteDes::EntityUpdate"
    );
    assert_eq!(
        classify_entity_updates(&[EntityUpdate::SetHp(0), EntityUpdate::RemoveEntity]),
        "RemoteDes::EntityDeath"
    );
    assert_eq!(
        classify_entity_updates(&[EntityUpdate::KillEntity, EntityUpdate::Other]),
        "RemoteDes::EntityDeath"
    );
}
