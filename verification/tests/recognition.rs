use tuio::blob::Blob;
use tuio::cursor::{Cursor, Position, Velocity};
use tuio::errors::TuioError;
use tuio::frame::{assemble, Fault, Frame};
use tuio::object::Object;
use tuio::osc::{OscArg, OscMessage};
use tuio::profile::{recognize, same_bytes, TuioMessage};

fn message(address: &str, args: Vec<OscArg>) -> OscMessage {
    OscMessage { address: address.as_bytes().to_vec(), args }
}

fn word(s: &str) -> OscArg {
    OscArg::Str(s.as_bytes().to_vec())
}

fn float(x: f32) -> OscArg {
    OscArg::Float(x.to_bits())
}

fn cursor_set(id: i32, x: f32, y: f32) -> OscMessage {
    message(
        "/tuio/2Dcur",
        vec![word("set"), OscArg::Int(id), float(x), float(y), float(9.0), float(9.0), float(9.0)],
    )
}

#[test]
fn cursor_set_is_recognized_at_rest() {
    let got = recognize::<Cursor>(&cursor_set(5, 0.25, 0.75));
    let expected = Cursor {
        session_id: 5,
        position: Position { x: 0.25f32.to_bits(), y: 0.75f32.to_bits() },
        velocity: Velocity { x: 0, y: 0 },
        acceleration: 0,
    };
    assert_eq!(got, Ok(TuioMessage::Observed(5, expected)));
    assert_eq!(expected, Cursor::new(5, Position { x: 0.25f32.to_bits(), y: 0.75f32.to_bits() }));
}

#[test]
fn object_set_is_recognized_at_rest() {
    let m = message(
        "/tuio/2Dobj",
        vec![
            word("set"),
            OscArg::Int(7),
            OscArg::Int(42),
            float(0.1),
            float(0.2),
            float(1.5),
            float(1.0),
            float(1.0),
            float(1.0),
            float(1.0),
            float(1.0),
        ],
    );
    let position = Position { x: 0.1f32.to_bits(), y: 0.2f32.to_bits() };
    let expected = Object::new(7, 42, position, 1.5f32.to_bits());
    assert_eq!(recognize::<Object>(&m), Ok(TuioMessage::Observed(7, expected)));
    assert_eq!(expected.get_class_id(), 42);
    assert_eq!(expected.get_angle(), 1.5f32.to_bits());
    assert_eq!(expected.get_rotation_speed(), 0);
    assert_eq!(recognize::<Cursor>(&m), Err(TuioError::UnknownAddress));
}

#[test]
fn blob_set_is_recognized_at_rest() {
    let mut args = vec![word("set"), OscArg::Int(3)];
    for v in [0.1f32, 0.2, 0.3, 0.4, 0.5, 0.6, 7.0, 8.0, 9.0, 10.0, 11.0] {
        args.push(float(v));
    }
    let m = message("/tuio/2Dblb", args);
    let position = Position { x: 0.1f32.to_bits(), y: 0.2f32.to_bits() };
    let expected = Blob::new(
        3,
        position,
        0.3f32.to_bits(),
        0.4f32.to_bits(),
        0.5f32.to_bits(),
        0.6f32.to_bits(),
    );
    assert_eq!(recognize::<Blob>(&m), Ok(TuioMessage::Observed(3, expected)));
    assert_eq!(expected.get_session_id(), 3);
    assert_eq!(*expected.get_position(), position);
    assert_eq!(expected.get_x_position(), 0.1f32.to_bits());
    assert_eq!(expected.get_y_position(), 0.2f32.to_bits());
    assert_eq!(*expected.get_velocity(), Velocity { x: 0, y: 0 });
    assert_eq!(expected.get_x_velocity(), 0);
    assert_eq!(expected.get_y_velocity(), 0);
    assert_eq!(expected.get_acceleration(), 0);
    assert_eq!(expected.get_angle(), 0.3f32.to_bits());
    assert_eq!(expected.get_rotation_speed(), 0);
    assert_eq!(expected.get_rotation_acceleration(), 0);
    assert_eq!(expected.get_width(), 0.4f32.to_bits());
    assert_eq!(expected.get_height(), 0.5f32.to_bits());
    assert_eq!(expected.get_area(), 0.6f32.to_bits());
}

#[test]
fn with_motion_replaces_the_motion_only() {
    let position = Position { x: 1, y: 2 };
    let b = Blob::new(3, position, 4, 5, 6, 7).with_motion(Velocity { x: 8, y: 9 }, 10, 11, 12);
    assert_eq!(
        b,
        Blob {
            session_id: 3,
            position,
            velocity: Velocity { x: 8, y: 9 },
            acceleration: 11,
            angle: 4,
            rotation_speed: 10,
            rotation_acceleration: 12,
            width: 5,
            height: 6,
            area: 7,
        }
    );
    let c = Cursor::new(1, position).with_motion(Velocity { x: 3, y: 4 }, 5);
    assert_eq!(c.get_x_velocity(), 3);
    assert_eq!(c.get_y_velocity(), 4);
    assert_eq!(c.get_acceleration(), 5);
    assert_eq!(c.get_x_position(), 1);
    let o = Object::new(1, 2, position, 3).with_motion(Velocity { x: 4, y: 5 }, 6, 7, 8);
    assert_eq!(*o.get_velocity(), Velocity { x: 4, y: 5 });
    assert_eq!(o.get_rotation_speed(), 6);
    assert_eq!(o.get_acceleration(), 7);
    assert_eq!(o.get_rotation_acceleration(), 8);
    assert_eq!(Velocity::default(), Velocity { x: 0, y: 0 });
}

#[test]
fn alive_fseq_and_source_are_recognized() {
    let alive = message("/tuio/2Dcur", vec![word("alive"), OscArg::Int(5), OscArg::Int(-2)]);
    assert_eq!(recognize::<Cursor>(&alive), Ok(TuioMessage::Alive(vec![5, -2])));
    let none = message("/tuio/2Dcur", vec![word("alive")]);
    assert_eq!(recognize::<Cursor>(&none), Ok(TuioMessage::Alive(vec![])));
    let fseq = message("/tuio/2Dcur", vec![word("fseq"), OscArg::Int(17)]);
    assert_eq!(recognize::<Cursor>(&fseq), Ok(TuioMessage::Fseq(17)));
    let source = message("/tuio/2Dcur", vec![word("source"), word("tracker@host")]);
    assert_eq!(recognize::<Cursor>(&source), Ok(TuioMessage::Source(b"tracker@host".to_vec())));
}

#[test]
fn other_addresses_are_unknown() {
    let m = message("/tuio/3Dcur", vec![word("fseq"), OscArg::Int(1)]);
    assert_eq!(recognize::<Cursor>(&m), Err(TuioError::UnknownAddress));
    assert_eq!(recognize::<Blob>(&cursor_set(1, 0.0, 0.0)), Err(TuioError::UnknownAddress));
    assert_eq!(recognize::<Object>(&message("/tuio/2Dob", vec![])), Err(TuioError::UnknownAddress));
}

#[test]
fn wrong_arguments_are_a_format_error() {
    let short = message("/tuio/2Dcur", vec![word("set"), OscArg::Int(1), float(0.0)]);
    assert_eq!(recognize::<Cursor>(&short), Err(TuioError::FormatError));
    let mut long = cursor_set(1, 0.0, 0.0);
    long.args.push(float(0.0));
    assert_eq!(recognize::<Cursor>(&long), Err(TuioError::FormatError));
    let mut wrong_id = cursor_set(1, 0.0, 0.0);
    wrong_id.args[1] = float(1.0);
    assert_eq!(recognize::<Cursor>(&wrong_id), Err(TuioError::FormatError));
    let mut wrong_motion = cursor_set(1, 0.0, 0.0);
    wrong_motion.args[6] = OscArg::Int(0);
    assert_eq!(recognize::<Cursor>(&wrong_motion), Err(TuioError::FormatError));
    let empty = message("/tuio/2Dcur", vec![]);
    assert_eq!(recognize::<Cursor>(&empty), Err(TuioError::FormatError));
    let no_word = message("/tuio/2Dcur", vec![OscArg::Int(1)]);
    assert_eq!(recognize::<Cursor>(&no_word), Err(TuioError::FormatError));
    let other_word = message("/tuio/2Dcur", vec![word("sets")]);
    assert_eq!(recognize::<Cursor>(&other_word), Err(TuioError::FormatError));
    let alive = message("/tuio/2Dcur", vec![word("alive"), OscArg::Int(1), float(2.0)]);
    assert_eq!(recognize::<Cursor>(&alive), Err(TuioError::FormatError));
    let fseq = message("/tuio/2Dcur", vec![word("fseq")]);
    assert_eq!(recognize::<Cursor>(&fseq), Err(TuioError::FormatError));
    let fseq_two = message("/tuio/2Dcur", vec![word("fseq"), OscArg::Int(1), OscArg::Int(2)]);
    assert_eq!(recognize::<Cursor>(&fseq_two), Err(TuioError::FormatError));
    let source = message("/tuio/2Dcur", vec![word("source"), OscArg::Int(1)]);
    assert_eq!(recognize::<Cursor>(&source), Err(TuioError::FormatError));
}

#[test]
fn assemble_gathers_a_frame_and_drops_bad_messages_alone() {
    let mut bad = cursor_set(8, 0.0, 0.0);
    bad.args.pop();
    let packet = vec![
        message("/tuio/2Dcur", vec![word("source"), word("a")]),
        message("/tuio/2Dcur", vec![word("alive"), OscArg::Int(1)]),
        cursor_set(5, 0.5, 0.5),
        message("/tuio/2Dobj", vec![word("fseq"), OscArg::Int(99)]),
        bad,
        message("/tuio/2Dcur", vec![word("alive"), OscArg::Int(5), OscArg::Int(6)]),
        cursor_set(6, 0.25, 0.5),
        message("/tuio/2Dcur", vec![word("fseq"), OscArg::Int(12)]),
    ];
    let (frame, faults) = assemble::<Cursor>(&packet);
    assert_eq!(faults, vec![Fault { index: 4, error: TuioError::FormatError }]);
    assert_eq!(frame.source, Some(b"a".to_vec()));
    assert_eq!(frame.alive, Some(vec![5, 6]));
    assert_eq!(frame.fseq, 12);
    let five = Cursor::new(5, Position { x: 0.5f32.to_bits(), y: 0.5f32.to_bits() });
    let six = Cursor::new(6, Position { x: 0.25f32.to_bits(), y: 0.5f32.to_bits() });
    assert_eq!(frame.sets, vec![(5, five), (6, six)]);
}

#[test]
fn empty_packet_gives_the_empty_frame() {
    let (frame, faults) = assemble::<Blob>(&vec![]);
    assert!(faults.is_empty());
    assert_eq!(frame, Frame::new());
    assert_eq!(frame.fseq, -1);
    assert_eq!(frame.alive, None);
    assert_eq!(frame.source, None);
    assert!(frame.sets.is_empty());
    let mut pushed: Frame<Cursor> = Frame::new();
    pushed.push(TuioMessage::Fseq(3));
    pushed.push(TuioMessage::Alive(vec![]));
    assert_eq!(pushed.fseq, 3);
    assert_eq!(pushed.alive, Some(vec![]));
}

#[test]
fn same_bytes_compares_whole_runs() {
    assert!(same_bytes(b"set", b"set"));
    assert!(same_bytes(b"", b""));
    assert!(!same_bytes(b"set", b"sets"));
    assert!(!same_bytes(b"set", b"sat"));
}
