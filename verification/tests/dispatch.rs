use std::f32::consts::{PI, SQRT_2};
use std::time::Duration;
use tuio::blob::Blob;
use tuio::cursor::{Cursor, Position, Velocity};
use tuio::decode::decode;
use tuio::dispatcher::{Entry, Event, PacketReport, SessionTable};
use tuio::encode::encode_bundle;
use tuio::errors::TuioError;
use tuio::frame::{assemble, Fault, Frame};
use tuio::osc::{OscArg, OscMessage, TimeTag};

const SECOND: u64 = 1_000_000_000;

fn at(x: f32, y: f32) -> Position {
    Position { x: x.to_bits(), y: y.to_bits() }
}

fn seconds(elapsed: u64) -> f32 {
    Duration::from_nanos(elapsed).as_secs_f32()
}

fn speed(v: &Velocity) -> f32 {
    let (x, y) = (f32::from_bits(v.x), f32::from_bits(v.y));
    (x * x + y * y).sqrt()
}

fn distance(a: &Position, b: &Position) -> f32 {
    let dx = f32::from_bits(a.x) - f32::from_bits(b.x);
    let dy = f32::from_bits(a.y) - f32::from_bits(b.y);
    (dx * dx + dy * dy).sqrt()
}

fn move_cursor(prev: Cursor, seen: Cursor, elapsed: u64) -> Cursor {
    let dt = seconds(elapsed);
    let dx = f32::from_bits(seen.position.x) - f32::from_bits(prev.position.x);
    let dy = f32::from_bits(seen.position.y) - f32::from_bits(prev.position.y);
    let now_speed = distance(&seen.position, &prev.position) / dt;
    let velocity = Velocity { x: (dx / dt).to_bits(), y: (dy / dt).to_bits() };
    seen.with_motion(velocity, ((now_speed - speed(&prev.velocity)) / dt).to_bits())
}

fn move_blob(prev: Blob, seen: Blob, elapsed: u64) -> Blob {
    let dt = seconds(elapsed);
    let dx = f32::from_bits(seen.position.x) - f32::from_bits(prev.position.x);
    let dy = f32::from_bits(seen.position.y) - f32::from_bits(prev.position.y);
    let now_speed = distance(&seen.position, &prev.position) / dt;
    let velocity = Velocity { x: (dx / dt).to_bits(), y: (dy / dt).to_bits() };
    let turn = (f32::from_bits(seen.angle) - f32::from_bits(prev.angle)) / (2. * PI);
    let rotation_speed = turn / dt;
    seen.with_motion(
        velocity,
        rotation_speed.to_bits(),
        ((now_speed - speed(&prev.velocity)) / dt).to_bits(),
        ((rotation_speed - f32::from_bits(prev.rotation_speed)) / dt).to_bits(),
    )
}

fn cursor_frame(sets: Vec<(i32, f32, f32)>, alive: Option<Vec<i32>>, fseq: i32) -> Frame<Cursor> {
    Frame {
        source: None,
        sets: sets.into_iter().map(|(id, x, y)| (id, Cursor::new(id, at(x, y)))).collect(),
        alive,
        fseq,
    }
}

#[test]
fn blob_update() {
    let mut table: SessionTable<Blob> = SessionTable::new();
    let first = Blob::new(0, at(0., 0.), 0f32.to_bits(), 0f32.to_bits(), 0f32.to_bits(), 0f32.to_bits());
    let mut frame = Frame { source: None, sets: vec![(0, first)], alive: Some(vec![0]), fseq: 1 };
    let report = table.process_frame(&frame, 0, move_blob).unwrap();
    assert_eq!(report.events, vec![Event::Add(0, first)]);

    let second = Blob::new(
        0,
        at(1., 1.),
        90f32.to_radians().to_bits(),
        0.5f32.to_bits(),
        0.5f32.to_bits(),
        0.25f32.to_bits(),
    );
    frame.sets = vec![(0, second)];
    frame.fseq = 2;
    let report = table.process_frame(&frame, SECOND, move_blob).unwrap();
    assert_eq!(report.events.len(), 1);
    let blob = table.get(0).unwrap();
    assert_eq!(report.events[0], Event::Update(0, blob));

    assert_eq!(f32::from_bits(blob.get_x_position()), 1.);
    assert_eq!(f32::from_bits(blob.get_y_position()), 1.);
    assert_eq!(f32::from_bits(blob.get_x_velocity()), 1.);
    assert_eq!(f32::from_bits(blob.get_y_velocity()), 1.);
    assert_eq!(f32::from_bits(blob.get_acceleration()), SQRT_2);
    assert_eq!(f32::from_bits(blob.get_rotation_speed()), 0.25);
    assert_eq!(f32::from_bits(blob.get_rotation_acceleration()), 0.25);
    assert_eq!(f32::from_bits(blob.get_width()), 0.5);
    assert_eq!(f32::from_bits(blob.get_height()), 0.5);
    assert_eq!(f32::from_bits(blob.get_area()), 0.25);
}

#[test]
fn session_is_added_updated_and_removed() {
    let mut table: SessionTable<Cursor> = SessionTable::new();
    assert_eq!(table.len(), 0);
    assert_eq!(table.last_fseq(), -1);

    let one = cursor_frame(vec![(5, 0.0, 0.0)], Some(vec![5]), 1);
    let report = table.process_frame(&one, 10 * SECOND, move_cursor).unwrap();
    assert_eq!(report.events, vec![Event::Add(5, Cursor::new(5, at(0.0, 0.0)))]);
    assert!(report.faults.is_empty());
    assert!(table.contains(5));
    assert_eq!(table.last_fseq(), 1);

    let two = cursor_frame(vec![(5, 0.1, 0.0)], Some(vec![5]), 2);
    let report = table.process_frame(&two, 10 * SECOND + SECOND / 2, move_cursor).unwrap();
    let moved = Cursor::new(5, at(0.1, 0.0))
        .with_motion(Velocity { x: 0.2f32.to_bits(), y: 0.0f32.to_bits() }, 0.4f32.to_bits());
    assert_eq!(report.events, vec![Event::Update(5, moved)]);
    assert_eq!(table.get(5), Some(moved));
    assert_eq!(
        table.entries(),
        vec![Entry { session_id: 5, seen_at: 10 * SECOND + SECOND / 2, state: moved }]
    );

    let three = cursor_frame(vec![], Some(vec![]), 3);
    let report = table.process_frame(&three, 11 * SECOND, move_cursor).unwrap();
    assert_eq!(report.events, vec![Event::Remove(5, moved)]);
    assert!(!table.contains(5));
    assert_eq!(table.get(5), None);
    assert_eq!(table.len(), 0);
    assert_eq!(table.last_fseq(), 3);
}

#[test]
fn stale_frame_changes_nothing() {
    let mut table: SessionTable<Cursor> = SessionTable::new();
    let first = cursor_frame(vec![(1, 0.0, 0.0), (2, 0.5, 0.5)], Some(vec![1, 2]), 7);
    table.process_frame(&first, SECOND, move_cursor).unwrap();
    let before = table.entries();

    let replay = table.process_frame(&first, 2 * SECOND, move_cursor);
    assert_eq!(replay, Err(TuioError::StaleFrame));
    assert_eq!(table.entries(), before);
    assert_eq!(table.last_fseq(), 7);

    let older = cursor_frame(vec![(3, 0.0, 0.0)], Some(vec![]), 6);
    assert_eq!(table.process_frame(&older, 3 * SECOND, move_cursor), Err(TuioError::StaleFrame));
    assert_eq!(table.entries(), before);

    let zero = cursor_frame(vec![], Some(vec![]), 0);
    assert_eq!(table.process_frame(&zero, 3 * SECOND, move_cursor), Err(TuioError::StaleFrame));
    assert_eq!(table.entries(), before);
}

#[test]
fn unsequenced_frames_are_always_accepted() {
    let mut table: SessionTable<Cursor> = SessionTable::new();
    let first = cursor_frame(vec![(1, 0.0, 0.0)], Some(vec![1]), 7);
    table.process_frame(&first, SECOND, move_cursor).unwrap();
    let loose = cursor_frame(vec![(2, 0.0, 0.0)], Some(vec![1, 2]), -1);
    let report = table.process_frame(&loose, 2 * SECOND, move_cursor).unwrap();
    assert_eq!(report.events, vec![Event::Add(2, Cursor::new(2, at(0.0, 0.0)))]);
    assert_eq!(table.last_fseq(), 7);
    let next = cursor_frame(vec![], Some(vec![1, 2]), 8);
    assert!(table.process_frame(&next, 3 * SECOND, move_cursor).unwrap().events.is_empty());
    assert_eq!(table.last_fseq(), 8);
    let first_zero: Frame<Cursor> = cursor_frame(vec![], None, 0);
    let mut fresh: SessionTable<Cursor> = SessionTable::new();
    assert!(fresh.process_frame(&first_zero, 0, move_cursor).is_ok());
    assert_eq!(fresh.last_fseq(), 0);
}

#[test]
fn update_over_no_time_is_a_format_error() {
    let mut table: SessionTable<Cursor> = SessionTable::new();
    let first = cursor_frame(vec![(5, 0.0, 0.0)], Some(vec![5]), 1);
    table.process_frame(&first, SECOND, move_cursor).unwrap();
    let before = table.entries();

    let same_time = cursor_frame(vec![(5, 1.0, 1.0)], Some(vec![5]), 2);
    let report = table.process_frame(&same_time, SECOND, move_cursor).unwrap();
    assert!(report.events.is_empty());
    assert_eq!(report.faults, vec![Fault { index: 0, error: TuioError::FormatError }]);
    assert_eq!(table.entries(), before);

    let earlier = cursor_frame(vec![(5, 1.0, 1.0), (6, 0.5, 0.5)], Some(vec![5, 6]), 3);
    let report = table.process_frame(&earlier, SECOND - 1, move_cursor).unwrap();
    assert_eq!(report.events, vec![Event::Add(6, Cursor::new(6, at(0.5, 0.5)))]);
    assert_eq!(report.faults, vec![Fault { index: 0, error: TuioError::FormatError }]);
    let kept = table.get(5).unwrap();
    assert!(f32::from_bits(kept.get_x_velocity()).is_finite());
    assert_eq!(kept, Cursor::new(5, at(0.0, 0.0)));
}

#[test]
fn second_set_for_a_session_in_one_frame_is_refused() {
    let mut table: SessionTable<Cursor> = SessionTable::new();
    let twice = cursor_frame(vec![(5, 0.0, 0.0), (5, 1.0, 1.0)], Some(vec![5]), 1);
    let report = table.process_frame(&twice, SECOND, move_cursor).unwrap();
    assert_eq!(report.events, vec![Event::Add(5, Cursor::new(5, at(0.0, 0.0)))]);
    assert_eq!(report.faults, vec![Fault { index: 1, error: TuioError::FormatError }]);

    let again = cursor_frame(vec![(5, 1.0, 0.0), (5, 0.0, 1.0)], Some(vec![5]), 2);
    let report = table.process_frame(&again, 2 * SECOND, move_cursor).unwrap();
    assert_eq!(report.events.len(), 1);
    assert_eq!(report.faults, vec![Fault { index: 1, error: TuioError::FormatError }]);
    let cursor = table.get(5).unwrap();
    assert_eq!(f32::from_bits(cursor.get_x_position()), 1.0);
    assert_eq!(f32::from_bits(cursor.get_x_velocity()), 1.0);
    assert_eq!(f32::from_bits(cursor.get_y_velocity()), 0.0);
}

#[test]
fn events_come_as_adds_then_updates_then_removes() {
    let mut table: SessionTable<Cursor> = SessionTable::new();
    let first = cursor_frame(vec![(1, 0.0, 0.0), (2, 0.0, 0.0), (3, 0.0, 0.0)], Some(vec![1, 2, 3]), 1);
    table.process_frame(&first, 0, move_cursor).unwrap();

    let second = cursor_frame(vec![(3, 1.0, 0.0), (4, 0.5, 0.5), (2, 0.0, 1.0)], Some(vec![3, 4]), 2);
    let report = table.process_frame(&second, SECOND, move_cursor).unwrap();
    let kinds: Vec<(char, i32)> = report
        .events
        .iter()
        .map(|e| match e {
            Event::Add(id, _) => ('a', *id),
            Event::Update(id, _) => ('u', *id),
            Event::Remove(id, _) => ('r', *id),
        })
        .collect();
    assert_eq!(kinds, vec![('a', 4), ('u', 3), ('u', 2), ('r', 1), ('r', 2)]);
    assert_eq!(report.faults, vec![Fault { index: 2, error: TuioError::SessionInconsistency }]);
    let ids: Vec<i32> = table.entries().iter().map(|e| e.session_id).collect();
    assert_eq!(ids, vec![3, 4]);
    match report.events[4] {
        Event::Remove(2, gone) => assert_eq!(f32::from_bits(gone.get_y_velocity()), 1.0),
        other => panic!("unexpected event {:?}", other),
    }
}

#[test]
fn set_outside_the_alive_list_is_accepted_and_reported() {
    let mut table: SessionTable<Cursor> = SessionTable::new();
    let frame = cursor_frame(vec![(9, 0.0, 0.0)], Some(vec![]), 1);
    let report = table.process_frame(&frame, 0, move_cursor).unwrap();
    assert_eq!(report.events, vec![Event::Add(9, Cursor::new(9, at(0.0, 0.0)))]);
    assert_eq!(report.faults, vec![Fault { index: 0, error: TuioError::SessionInconsistency }]);
    assert!(table.contains(9));

    let next = cursor_frame(vec![], Some(vec![]), 2);
    let report = table.process_frame(&next, SECOND, move_cursor).unwrap();
    assert_eq!(report.events, vec![Event::Remove(9, Cursor::new(9, at(0.0, 0.0)))]);
}

#[test]
fn alive_alone_creates_nothing_and_no_alive_removes_nothing() {
    let mut table: SessionTable<Cursor> = SessionTable::new();
    let only_alive = cursor_frame(vec![], Some(vec![1, 2, 3]), 1);
    let report = table.process_frame(&only_alive, 0, move_cursor).unwrap();
    assert!(report.events.is_empty());
    assert_eq!(table.len(), 0);

    let create = cursor_frame(vec![(1, 0.0, 0.0)], Some(vec![1]), 2);
    table.process_frame(&create, SECOND, move_cursor).unwrap();
    let silent = cursor_frame(vec![], None, 3);
    let report = table.process_frame(&silent, 2 * SECOND, move_cursor).unwrap();
    assert!(report.events.is_empty());
    assert!(table.contains(1));
}

#[test]
fn session_id_can_return_after_removal() {
    let mut table: SessionTable<Cursor> = SessionTable::new();
    let mut kinds: Vec<char> = Vec::new();
    let frames = vec![
        cursor_frame(vec![(5, 0.0, 0.0)], Some(vec![5]), 1),
        cursor_frame(vec![(5, 0.1, 0.0)], Some(vec![5]), 2),
        cursor_frame(vec![(5, 0.1, 0.0)], Some(vec![5]), 2),
        cursor_frame(vec![], Some(vec![]), 3),
        cursor_frame(vec![], Some(vec![]), 4),
        cursor_frame(vec![(5, 0.9, 0.9)], Some(vec![5]), 5),
        cursor_frame(vec![(5, 0.8, 0.9)], Some(vec![]), 6),
    ];
    for (i, frame) in frames.iter().enumerate() {
        if let Ok(report) = table.process_frame(frame, (i as u64 + 1) * SECOND, move_cursor) {
            for e in report.events {
                match e {
                    Event::Add(5, _) => kinds.push('a'),
                    Event::Update(5, _) => kinds.push('u'),
                    Event::Remove(5, _) => kinds.push('r'),
                    other => panic!("unexpected event {:?}", other),
                }
            }
        }
    }
    assert_eq!(kinds, vec!['a', 'u', 'r', 'a', 'u', 'r']);
    assert_eq!(table.len(), 0);
}

#[test]
fn diagonal_move_in_one_second() {
    let mut table: SessionTable<Cursor> = SessionTable::new();
    table.process_frame(&cursor_frame(vec![(1, 0.0, 0.0)], Some(vec![1]), 1), 0, move_cursor).unwrap();
    table.process_frame(&cursor_frame(vec![(1, 1.0, 1.0)], Some(vec![1]), 2), SECOND, move_cursor).unwrap();
    let cursor = table.get(1).unwrap();
    assert_eq!(f32::from_bits(cursor.get_x_velocity()), 1.0);
    assert_eq!(f32::from_bits(cursor.get_y_velocity()), 1.0);
    assert_eq!(f32::from_bits(cursor.get_acceleration()), SQRT_2);
}

#[test]
fn packet_bytes_to_events() {
    let word = |s: &str| OscArg::Str(s.as_bytes().to_vec());
    let float = |x: f32| OscArg::Float(x.to_bits());
    let address = b"/tuio/2Dcur".to_vec();
    let packet = vec![
        OscMessage { address: address.clone(), args: vec![word("alive"), OscArg::Int(5)] },
        OscMessage {
            address: address.clone(),
            args: vec![word("set"), OscArg::Int(5), float(0.5), float(0.25), float(0.), float(0.), float(0.)],
        },
        OscMessage { address: address.clone(), args: vec![word("fseq"), OscArg::Int(1)] },
    ];
    let bytes = encode_bundle(&packet, TimeTag { seconds: 0, fraction: 1 }).unwrap();
    let decoded = decode(&bytes).unwrap();
    assert_eq!(decoded, packet);
    let (frame, faults) = assemble::<Cursor>(&decoded);
    assert!(faults.is_empty());
    let mut table: SessionTable<Cursor> = SessionTable::new();
    let report = table.process_frame(&frame, 0, move_cursor).unwrap();
    assert_eq!(report.events, vec![Event::Add(5, Cursor::new(5, at(0.5, 0.25)))]);
}

fn cursor_packet(sets: Vec<(i32, f32, f32)>, alive: Vec<i32>, fseq: i32) -> Vec<OscMessage> {
    let word = |s: &str| OscArg::Str(s.as_bytes().to_vec());
    let float = |x: f32| OscArg::Float(x.to_bits());
    let address = b"/tuio/2Dcur".to_vec();
    let mut packet = Vec::new();
    let mut ids = vec![word("alive")];
    ids.extend(alive.into_iter().map(OscArg::Int));
    packet.push(OscMessage { address: address.clone(), args: ids });
    for (id, x, y) in sets {
        packet.push(OscMessage {
            address: address.clone(),
            args: vec![word("set"), OscArg::Int(id), float(x), float(y), float(0.), float(0.), float(0.)],
        });
    }
    packet.push(OscMessage { address, args: vec![word("fseq"), OscArg::Int(fseq)] });
    packet
}

#[test]
fn feed_runs_the_scenario_from_bytes() {
    let stamp = TimeTag { seconds: 0, fraction: 1 };
    let mut table: SessionTable<Cursor> = SessionTable::new();

    let one = encode_bundle(&cursor_packet(vec![(5, 0.0, 0.0)], vec![5], 1), stamp).unwrap();
    let report = table.feed(&one, 0, move_cursor).unwrap();
    assert_eq!(report.events, vec![Event::Add(5, Cursor::new(5, at(0.0, 0.0)))]);
    assert!(report.dropped.is_empty() && report.faults.is_empty());

    let two = encode_bundle(&cursor_packet(vec![(5, 0.1, 0.0)], vec![5], 2), stamp).unwrap();
    let report = table.feed(&two, SECOND / 2, move_cursor).unwrap();
    assert_eq!(report.events.len(), 1);
    match report.events[0] {
        Event::Update(5, cursor) => {
            assert_eq!(f32::from_bits(cursor.get_x_velocity()), 0.2);
            assert_eq!(f32::from_bits(cursor.get_y_velocity()), 0.0);
        }
        other => panic!("unexpected event {:?}", other),
    }

    let replay = table.feed(&two, SECOND, move_cursor);
    assert_eq!(replay, Err(TuioError::StaleFrame));
    assert!(table.contains(5));

    let three = encode_bundle(&cursor_packet(vec![], vec![], 3), stamp).unwrap();
    let report = table.feed(&three, SECOND, move_cursor).unwrap();
    assert_eq!(report.events.len(), 1);
    assert!(matches!(report.events[0], Event::Remove(5, _)));
    assert!(!table.contains(5));
}

#[test]
fn feed_refuses_bad_bytes_and_reports_bad_messages() {
    let stamp = TimeTag { seconds: 0, fraction: 1 };
    let mut table: SessionTable<Cursor> = SessionTable::new();
    assert_eq!(table.feed(b"/tuio/2Dcur", 0, move_cursor), Err(TuioError::FormatError));
    assert_eq!(table.len(), 0);

    let mut packet = cursor_packet(vec![(1, 0.0, 0.0), (2, 0.0, 0.0)], vec![1, 2], 1);
    packet[1].args.pop();
    packet.push(OscMessage { address: b"/tuio/2Dobj".to_vec(), args: vec![] });
    let bytes = encode_bundle(&packet, stamp).unwrap();
    let report: PacketReport<Cursor> = table.feed(&bytes, 0, move_cursor).unwrap();
    assert_eq!(report.dropped, vec![Fault { index: 1, error: TuioError::FormatError }]);
    assert_eq!(report.events, vec![Event::Add(2, Cursor::new(2, at(0.0, 0.0)))]);
    assert!(report.faults.is_empty());
}
