use faust::render::renderer::{erase_cities_and_ports, get_neighbors, region_layer, Pixmap, Rgba};

const WATER: Rgba = Rgba { r: 0x29, g: 0x8C, b: 0xE9, a: 0xFF };
const CITY: Rgba = Rgba { r: 0, g: 0, b: 0, a: 0xFF };
const PORT: Rgba = Rgba { r: 0xFF, g: 0xFF, b: 0xFF, a: 0xFF };
const A: Rgba = Rgba { r: 10, g: 20, b: 30, a: 0xFF };
const B: Rgba = Rgba { r: 40, g: 50, b: 60, a: 0xFF };

fn map() -> Pixmap {
    // row 0: water  water  A
    // row 1: B      city   A
    // row 2: port   water  water
    Pixmap { width: 3, height: 3, pixels: vec![WATER, WATER, A, B, CITY, A, PORT, WATER, WATER] }
}

#[test]
fn neighbors_in_order_without_water() {
    let m = map();
    assert_eq!(get_neighbors(&m, 1, 1), vec![B, A, A, PORT]);
    assert_eq!(get_neighbors(&m, 0, 0), vec![B, CITY]);
    assert_eq!(get_neighbors(&m, 2, 2), vec![A, CITY]);
}

#[test]
fn cities_and_ports_take_their_neighbors_colour() {
    let mut m = map();
    erase_cities_and_ports(&mut m);
    assert_eq!(m.pixels, vec![WATER, WATER, A, B, B, A, B, WATER, WATER]);
    let mut lonely = Pixmap { width: 2, height: 1, pixels: vec![CITY, WATER] };
    erase_cities_and_ports(&mut lonely);
    assert_eq!(lonely.pixels, vec![CITY, WATER]);
}

#[test]
fn region_layers() {
    let m = map();
    let orange = Rgba { r: 0xFF, g: 0x71, b: 0, a: 0xC0 };
    let clear = Rgba { r: 0, g: 0, b: 0, a: 0 };
    let l = region_layer(&m, (10, 20, 30), orange);
    assert_eq!((l.width, l.height), (3, 3));
    assert_eq!(l.pixels, vec![clear, clear, orange, clear, clear, orange, clear, clear, clear]);
}
