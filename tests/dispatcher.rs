use fractal_tiles::dispatch::{Dispatcher, ThreadMessage};
use fractal_tiles::render::{MandelbrotSetProperties, TileImage};
use fractal_tiles::tile::TileId;

fn props() -> MandelbrotSetProperties {
    MandelbrotSetProperties { iterations: 10, exponent: 2, samples: (4, 4) }
}

fn image(byte: u8) -> TileImage {
    TileImage { width: 1, height: 1, rgba: vec![byte, byte, byte, 255] }
}

#[test]
fn second_create_work_spawns_nothing() {
    let mut d: Dispatcher<u32> = Dispatcher::new();
    let id = TileId { x: 1, y: 1, zoom: 1 };
    let mut spawned = 0;
    assert!(d.create_work(id, props(), |_, _| { spawned += 1; 1 }));
    assert!(!d.create_work(id, props(), |_, _| { spawned += 1; 2 }));
    assert_eq!(spawned, 1);
    assert_eq!(d.len(), 1);
    assert!(d.is_registered(id));
}

#[test]
fn poll_of_unknown_tile_is_not_ready() {
    let mut d: Dispatcher<u32> = Dispatcher::new();
    let id = TileId { x: 0, y: 0, zoom: 0 };
    let reply = d.poll(id, |_| Some(image(1)));
    assert!(matches!(reply, ThreadMessage::NotReady(t) if t == id));
}

#[test]
fn poll_relays_completion_and_unregisters() {
    let mut d: Dispatcher<u32> = Dispatcher::new();
    let a = TileId { x: 0, y: 0, zoom: 1 };
    let b = TileId { x: 1, y: 0, zoom: 1 };
    d.create_work(a, props(), |_, _| 10);
    d.create_work(b, props(), |_, _| 20);
    let reply = d.poll(b, |w| if *w == 20 { None } else { Some(image(0)) });
    assert!(matches!(reply, ThreadMessage::NotReady(t) if t == b));
    assert_eq!(d.len(), 2);
    let reply = d.poll(b, |w| if *w == 20 { Some(image(9)) } else { None });
    match reply {
        ThreadMessage::Completed(t, img) => {
            assert_eq!(t, b);
            assert_eq!(img.rgba, vec![9, 9, 9, 255]);
        }
        _ => panic!("expected a completed tile"),
    }
    assert_eq!(d.len(), 1);
    assert!(d.is_registered(a));
    assert!(!d.is_registered(b));
    // after completion, work on the tile can start again
    assert!(d.create_work(b, props(), |_, _| 30));
}

#[test]
fn dispatch_routes_messages() {
    let mut d: Dispatcher<u32> = Dispatcher::new();
    let id = TileId { x: 2, y: 3, zoom: 2 };
    assert!(d.dispatch(ThreadMessage::CreateWork(id, props()), |_, _| 5, |_| None).is_none());
    assert!(d.dispatch(ThreadMessage::CreateWork(id, props()), |_, _| 6, |_| None).is_none());
    assert_eq!(d.len(), 1);
    let reply = d.dispatch(ThreadMessage::Poll(id), |_, _| 0, |w| if *w == 5 { Some(image(3)) } else { None });
    assert!(matches!(reply, Some(ThreadMessage::Completed(t, _)) if t == id));
    assert_eq!(d.len(), 0);
    assert!(d.dispatch(ThreadMessage::NotReady(id), |_, _| 0, |_| None).is_none());
}
