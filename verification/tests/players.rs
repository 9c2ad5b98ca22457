use lockstep::cli::format_usage_message;
use lockstep::game::GameObjectId;
use lockstep::hasher::U64DoNothingBuildHasher;
use lockstep::input::{Key, KeyState};
use lockstep::players::{assign_players, bytes_precede};

const FIRST: GameObjectId = GameObjectId(0);
const SECOND: GameObjectId = GameObjectId(1);

#[test]
fn the_peer_whose_name_comes_last_plays_the_first_player() {
    assert_eq!(assign_players("bob", "alice", FIRST, SECOND), (FIRST, SECOND));
    assert_eq!(assign_players("alice", "bob", FIRST, SECOND), (SECOND, FIRST));
}

#[test]
fn both_peers_agree_on_who_plays_whom() {
    let names = ["alice", "bob", "", "al", "alicia", "Bob", "ålice", "zed", "名前"];
    for a in names {
        for b in names {
            if a != b {
                let (mine, theirs) = assign_players(a, b, FIRST, SECOND);
                let (their_mine, their_theirs) = assign_players(b, a, FIRST, SECOND);
                assert_eq!(mine, their_theirs);
                assert_eq!(theirs, their_mine);
                assert_ne!(mine, theirs);
            }
        }
    }
}

#[test]
fn players_follow_the_order_of_strings() {
    let names = ["alice", "bob", "", "al", "alicia", "Bob", "ålice", "zed", "名前"];
    for a in names {
        for b in names {
            let expected = if b < a { (FIRST, SECOND) } else { (SECOND, FIRST) };
            assert_eq!(assign_players(a, b, FIRST, SECOND), expected);
        }
    }
}

#[test]
fn bytes_are_ordered_lexicographically() {
    assert!(bytes_precede(b"", b"a"));
    assert!(!bytes_precede(b"", b""));
    assert!(!bytes_precede(b"a", b""));
    assert!(bytes_precede(b"a", b"b"));
    assert!(!bytes_precede(b"b", b"a"));
    assert!(bytes_precede(b"ab", b"abc"));
    assert!(!bytes_precede(b"abc", b"ab"));
    assert!(!bytes_precede(b"abc", b"abc"));
    assert!(bytes_precede(b"abc", b"abd"));
    assert!(bytes_precede(b"Z", b"a"));
    assert!(bytes_precede(&[0x7f], &[0x80]));
    assert!(bytes_precede(b"az", b"b"));
}

#[test]
fn hasher_gives_the_key_back() {
    let mut hasher = U64DoNothingBuildHasher::default().build_hasher();
    assert!(!hasher.is_written());
    assert_eq!(hasher.finish(), 0);
    hasher.write(&[0x01, 0x02, 0x03, 0x04, 0x05, 0x06, 0x07, 0x08]);
    assert!(hasher.is_written());
    assert_eq!(hasher.finish(), 0x0102_0304_0506_0708);
}

#[test]
fn hasher_reads_the_first_eight_bytes() {
    let mut hasher = U64DoNothingBuildHasher {}.build_hasher();
    hasher.write(&[0, 0, 0, 0, 0, 0, 1, 0, 0xff, 0xff]);
    assert_eq!(hasher.finish(), 256);
}

#[test]
fn no_key_is_held_at_first() {
    let state = KeyState::new();
    assert_eq!(state, KeyState { left: false, right: false, up: false, down: false });
    assert_eq!(state.move_direction(), (0, 0));
}

#[test]
fn keys_give_the_direction_of_the_move() {
    let mut state = KeyState::new();
    state.set(Key::Left, true);
    assert_eq!(state.move_direction(), (-1, 0));
    state.set(Key::Right, true);
    assert_eq!(state.move_direction(), (0, 0));
    state.set(Key::Left, false);
    assert_eq!(state.move_direction(), (1, 0));
    state.set(Key::Down, true);
    assert_eq!(state.move_direction(), (1, 1));
    state.set(Key::Up, true);
    assert_eq!(state.move_direction(), (1, 0));
    state.set(Key::Down, false);
    assert_eq!(state.move_direction(), (1, -1));
    state.set(Key::Right, false);
    state.set(Key::Up, false);
    assert_eq!(state, KeyState::new());
}

#[test]
fn usage_message_names_the_program() {
    assert_eq!(
        format_usage_message("lockstep"),
        "Usage: lockstep [player name] [(host [port]|(client [ip] [port])]"
    );
    assert_eq!(
        format_usage_message(""),
        "Usage:  [player name] [(host [port]|(client [ip] [port])]"
    );
}
