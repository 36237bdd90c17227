use game2048::grid::Direction;
use game2048::input::{decode_arrow, decode_plain, feed, Command, KeyState, BRACKET, ESCAPE};

fn keys(bytes: &[u8]) -> Vec<Command> {
    let mut state = KeyState::Ready;
    let mut commands = Vec::new();
    for byte in bytes {
        let (next, command) = feed(state, *byte);
        state = next;
        if let Some(command) = command {
            commands.push(command);
        }
    }
    commands
}

#[test]
fn letters_move_retry_and_quit() {
    assert_eq!(decode_plain(b'w'), Command::Slide(Direction::Up));
    assert_eq!(decode_plain(b'W'), Command::Slide(Direction::Up));
    assert_eq!(decode_plain(b's'), Command::Slide(Direction::Down));
    assert_eq!(decode_plain(b'S'), Command::Slide(Direction::Down));
    assert_eq!(decode_plain(b'a'), Command::Slide(Direction::Left));
    assert_eq!(decode_plain(b'A'), Command::Slide(Direction::Left));
    assert_eq!(decode_plain(b'd'), Command::Slide(Direction::Right));
    assert_eq!(decode_plain(b'D'), Command::Slide(Direction::Right));
    assert_eq!(decode_plain(b'r'), Command::Retry);
    assert_eq!(decode_plain(b'R'), Command::Retry);
    assert_eq!(decode_plain(b'q'), Command::Quit);
    assert_eq!(decode_plain(b'Q'), Command::Quit);
}

#[test]
fn other_bytes_ask_for_nothing() {
    for byte in [b'h', b'H', b'i', b'I', b'x', b' ', b'\n', 0, 255, b'[', b'B', b'C'] {
        assert_eq!(decode_plain(byte), Command::NoOp);
    }
}

#[test]
fn arrow_letters_name_the_four_directions() {
    assert_eq!(decode_arrow(b'A'), Command::Slide(Direction::Up));
    assert_eq!(decode_arrow(b'B'), Command::Slide(Direction::Down));
    assert_eq!(decode_arrow(b'C'), Command::Slide(Direction::Right));
    assert_eq!(decode_arrow(b'D'), Command::Slide(Direction::Left));
    for byte in [b'E', b'a', b'w', b'q', 0, 27] {
        assert_eq!(decode_arrow(byte), Command::NoOp);
    }
}

#[test]
fn an_arrow_key_takes_three_bytes() {
    assert_eq!(ESCAPE, 0x1b);
    assert_eq!(BRACKET, b'[');
    assert_eq!(feed(KeyState::Ready, ESCAPE), (KeyState::Escaped, None));
    assert_eq!(feed(KeyState::Escaped, BRACKET), (KeyState::Bracketed, None));
    assert_eq!(
        feed(KeyState::Bracketed, b'A'),
        (KeyState::Ready, Some(Command::Slide(Direction::Up)))
    );
    assert_eq!(keys(&[27, b'[', b'D']), vec![Command::Slide(Direction::Left)]);
    assert_eq!(keys(&[27, b'[', b'C']), vec![Command::Slide(Direction::Right)]);
    assert_eq!(keys(&[27, b'[', b'B']), vec![Command::Slide(Direction::Down)]);
    assert_eq!(keys(&[27, b'[', b'Z']), vec![Command::NoOp]);
}

#[test]
fn a_plain_key_takes_one_byte() {
    assert_eq!(feed(KeyState::Ready, b'q'), (KeyState::Ready, Some(Command::Quit)));
    assert_eq!(
        keys(b"wasd"),
        vec![
            Command::Slide(Direction::Up),
            Command::Slide(Direction::Left),
            Command::Slide(Direction::Down),
            Command::Slide(Direction::Right),
        ]
    );
}

#[test]
fn a_lone_escape_swallows_the_next_byte() {
    assert_eq!(feed(KeyState::Escaped, b'q'), (KeyState::Ready, Some(Command::NoOp)));
    assert_eq!(keys(&[27, b'q', b'r']), vec![Command::NoOp, Command::Retry]);
    assert_eq!(
        keys(&[27, 27, b'[', b'A']),
        vec![Command::NoOp, Command::NoOp, Command::Slide(Direction::Left)]
    );
}

#[test]
fn keys_follow_one_another() {
    assert_eq!(
        keys(&[b'w', 27, b'[', b'A', b'x', 27, b'[', b'D', b'q']),
        vec![
            Command::Slide(Direction::Up),
            Command::Slide(Direction::Up),
            Command::NoOp,
            Command::Slide(Direction::Left),
            Command::Quit,
        ]
    );
}
