use tetr::game::data::player::Settings;
use tetr::game::data::Input;
use tetr::game::request::Request;
use tetr::input::{key_command, GameKey, KeyCommand};
use tetr::online::client::packet::Data as ClientData;
use tetr::online::client::{client_action, retry_after, ClientAction, SendError};
use tetr::online::packet::{Packet, ProtocolId};
use tetr::online::server::packet::Data as ServerData;
use tetr::online::server::{server_action, ServerAction};
use tetr::data::shapes::tetrimino::Shape;

#[test]
fn the_client_connects_once_then_takes_inputs() {
    let established = ServerData::ConnectionEstablished { connection: 17 };
    assert_eq!(client_action(false, established), ClientAction::Establish { connection: 17 });
    assert_eq!(client_action(true, established), ClientAction::Report);
    let input = ServerData::PlayerInput { player: 3, input: Input::FastFall };
    assert_eq!(client_action(true, input), ClientAction::PerformInput { input: Input::FastFall });
    assert_eq!(client_action(false, input), ClientAction::Report);
    assert_eq!(client_action(true, ServerData::ConnectionInvalid), ClientAction::Report);
}

#[test]
fn sends_are_retried_on_interruptions_and_timeouts_only() {
    assert_eq!(retry_after(SendError::Interrupted, 5), Some(4));
    assert_eq!(retry_after(SendError::TimedOut, 1), Some(0));
    assert_eq!(retry_after(SendError::TimedOut, 0), None);
    assert_eq!(retry_after(SendError::Other, 5), None);
}

#[test]
fn the_server_accepts_its_protocol_version() {
    assert_eq!(server_action(ClientData::Connect { protocol_version: 1 }), ServerAction::Establish);
    assert_eq!(server_action(ClientData::Connect { protocol_version: 2 }), ServerAction::Refuse { version: 2 });
    let settings = Settings { fastfall_shadow: true };
    assert_eq!(
        server_action(ClientData::Request { connection: 4, request: Request::PlayerAdd { settings, world: 1 } }),
        ServerAction::AddPlayer { settings }
    );
    assert_eq!(
        server_action(ClientData::Request { connection: 4, request: Request::PlayerInput { player: 0, input: Input::MoveLeft } }),
        ServerAction::PerformInput { input: Input::MoveLeft }
    );
    assert_eq!(server_action(ClientData::Disconnect { connection: 4 }), ServerAction::Report);
    assert_eq!(server_action(ClientData::Request { connection: 4, request: Request::GameQuit }), ServerAction::Report);
}

#[test]
fn packets_carry_the_protocol_id() {
    let p = ServerData::ConnectionInvalid.into_packet(9);
    assert_eq!(p, Packet { protocol: ProtocolId, packet: 9, data: ServerData::ConnectionInvalid });
    let q = ClientData::Connect { protocol_version: 1 }.into_packet(2);
    assert_eq!(q.packet, 2);
}

#[test]
fn keys_pause_give_shapes_and_restart() {
    assert_eq!(key_command(true, GameKey::Return), KeyCommand::Unpause);
    assert_eq!(key_command(true, GameKey::D1), KeyCommand::Ignore);
    assert_eq!(key_command(true, GameKey::Other), KeyCommand::Ignore);
    assert_eq!(key_command(false, GameKey::Return), KeyCommand::Pause);
    assert_eq!(key_command(false, GameKey::D1), KeyCommand::GiveShape(Shape::I));
    assert_eq!(key_command(false, GameKey::D7), KeyCommand::GiveShape(Shape::Z));
    assert_eq!(key_command(false, GameKey::R), KeyCommand::RestartWorld);
    assert_eq!(key_command(false, GameKey::Home), KeyCommand::MoveToTop);
    assert_eq!(key_command(false, GameKey::Other), KeyCommand::Binding);
}
