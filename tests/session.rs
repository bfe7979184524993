use game_core::ids::{BuildingID, Position};
use game_core::response::{Action, Auth, Event, Exception, Response, Token, World};
use game_core::session::{Reply, Sessions};

fn is_exception(r: &Reply, e: Exception) -> bool {
    matches!(r, Reply::Send(Response::Exception(x)) if *x == e)
}

#[test]
fn register_then_login_then_forward() {
    let mut s = Sessions::new(Vec::new());
    let r = s.on_message(1, Response::Auth(Auth::Register("Toude".to_string())));
    assert!(matches!(r, Reply::Send(Response::Auth(Auth::NewToken(Token(3421545))))));
    assert_eq!(s.accounts().len(), 1);
    let r = s.on_message(1, Response::Auth(Auth::Register("Toude".to_string())));
    assert!(is_exception(&r, Exception::AlreadyRegistered));
    assert_eq!(s.accounts().len(), 1);

    let hire = Event::Player(Action::Hire { building: BuildingID(0), amount: 1 });
    let r = s.on_message(1, Response::Event(hire));
    assert!(is_exception(&r, Exception::LoggedOut));

    let r = s.on_message(1, Response::Auth(Auth::Login("Toude".to_string(), Token(1))));
    assert!(is_exception(&r, Exception::InvalidToken));
    assert_eq!(s.user_of(1), None);
    let r = s.on_message(1, Response::Auth(Auth::Login("Toude".to_string(), Token(3421545))));
    assert!(matches!(r, Reply::Nothing));
    assert_eq!(s.user_of(1), Some(&"Toude".to_string()));
    assert_eq!(s.client_logged_as(&"Toude".to_string()), Some(1));

    let pos = Position { x: 2, y: 3 };
    let r = s.on_message(1, Response::Event(Event::World(World::GetTile(pos))));
    match r {
        Reply::Forward(name, Event::World(World::GetTile(p))) => {
            assert_eq!(name, "Toude");
            assert_eq!(p, pos);
        }
        other => panic!("unexpected reply {:?}", other),
    }
}

#[test]
fn unknown_user_cannot_log_in() {
    let mut s = Sessions::new(vec![("Toude".to_string(), Token(7))]);
    let r = s.on_message(4, Response::Auth(Auth::Login("Other".to_string(), Token(7))));
    assert!(is_exception(&r, Exception::Unregistered));
    let r = s.on_message(4, Response::Auth(Auth::Login("Toude".to_string(), Token(7))));
    assert!(matches!(r, Reply::Nothing));
}

#[test]
fn disconnect_forgets_the_client() {
    let mut s = Sessions::new(vec![("Toude".to_string(), Token(7))]);
    s.on_message(4, Response::Auth(Auth::Login("Toude".to_string(), Token(7))));
    let r = s.on_message(4, Response::Auth(Auth::Disconnect));
    assert!(is_exception(&r, Exception::LoggedOut));
    assert_eq!(s.user_of(4), None);
    assert_eq!(s.client_logged_as(&"Toude".to_string()), None);
    let r = s.on_message(4, Response::Auth(Auth::Disconnect));
    assert!(is_exception(&r, Exception::LoggedOut));
}

#[test]
fn stray_messages_are_ignored() {
    let mut s = Sessions::new(Vec::new());
    assert!(matches!(s.on_message(1, Response::Auth(Auth::NewToken(Token(1)))), Reply::Nothing));
    assert!(matches!(s.on_message(1, Response::Exception(Exception::NotFound)), Reply::Nothing));
    assert_eq!(s.accounts().len(), 0);
}
