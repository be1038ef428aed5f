use blace::canvas::{blank_grid, cell_offset, heal_grid, white_pixel};
use blace::database::{Database, PixelError};
use blace::handlers::{
    create_game, get_all_games_info, get_game_data, get_game_info, put_pixel, register_game,
};
use blace::models::{CreateGameRequest, PutPixelRequest, RGBPixel};

fn white() -> RGBPixel {
    RGBPixel { r: 255, g: 255, b: 255 }
}

fn request(name: &str, width: usize, height: usize) -> CreateGameRequest {
    CreateGameRequest { name: name.to_string(), width, height }
}

fn put(x: usize, y: usize, pixel: RGBPixel) -> PutPixelRequest {
    PutPixelRequest { x, y, pixel }
}

#[test]
fn unwritten_canvas_is_all_white() {
    let mut db = Database::new();
    let info = create_game(&mut db, &request("fresh", 3, 2), 7).unwrap();
    let data = get_game_data(&db, info.id).unwrap();
    assert_eq!(data.grid.len(), 6);
    assert!(data.grid.iter().all(|p| *p == white()));
    assert_eq!(db.get_grid(info.id).unwrap(), vec![white(); 6]);
}

#[test]
fn put_pixel_reflects_at_row_major_offset() {
    let mut db = Database::new();
    let info = create_game(&mut db, &request("offsets", 3, 2), 0).unwrap();
    let p = RGBPixel { r: 1, g: 2, b: 3 };
    assert!(put_pixel(&mut db, info.id, &put(2, 1, p)).is_ok());
    let grid = db.get_grid(info.id).unwrap();
    assert_eq!(grid.len(), 6);
    for (k, cell) in grid.iter().enumerate() {
        if k == 5 {
            assert_eq!(*cell, p);
        } else {
            assert_eq!(*cell, white());
        }
    }
    let q = RGBPixel { r: 9, g: 9, b: 9 };
    assert!(put_pixel(&mut db, info.id, &put(1, 0, q)).is_ok());
    let grid = db.get_grid(info.id).unwrap();
    assert_eq!(grid[1], q);
    assert_eq!(grid[5], p);
}

#[test]
fn writing_same_pixel_twice_is_idempotent() {
    let mut db = Database::new();
    let info = create_game(&mut db, &request("twice", 2, 2), 0).unwrap();
    let p = RGBPixel { r: 4, g: 5, b: 6 };
    put_pixel(&mut db, info.id, &put(0, 1, p)).unwrap();
    let once = db.get_grid(info.id).unwrap();
    put_pixel(&mut db, info.id, &put(0, 1, p)).unwrap();
    let twice = db.get_grid(info.id).unwrap();
    assert_eq!(once, twice);
    assert_eq!(twice, vec![white(), white(), p, white()]);
}

#[test]
fn write_to_one_game_leaves_another_unchanged() {
    let mut db = Database::new();
    let a = create_game(&mut db, &request("a", 2, 2), 0).unwrap();
    let b = create_game(&mut db, &request("b", 2, 2), 0).unwrap();
    let pb = RGBPixel { r: 7, g: 7, b: 7 };
    put_pixel(&mut db, b.id, &put(1, 0, pb)).unwrap();
    let before = db.get_grid(b.id).unwrap();
    put_pixel(&mut db, a.id, &put(1, 0, RGBPixel { r: 0, g: 0, b: 0 })).unwrap();
    assert_eq!(db.get_grid(b.id).unwrap(), before);
    assert_eq!(get_game_info(&db, b.id).unwrap().name, "b");
}

#[test]
fn end_to_end_grid_scenario() {
    let mut db = Database::new();
    let info = create_game(&mut db, &request("demo", 2, 2), 1_700_000_000).unwrap();
    assert_eq!(info.name, "demo");
    assert_eq!(info.width, 2);
    assert_eq!(info.height, 2);
    assert_eq!(info.created_at, 1_700_000_000);
    let p = RGBPixel { r: 10, g: 20, b: 30 };
    let update = put_pixel(&mut db, info.id, &put(1, 1, p)).unwrap();
    assert_eq!(update.game_id, info.id);
    assert_eq!(update.message.game_id, info.id);
    assert_eq!(update.message.x, 1);
    assert_eq!(update.message.y, 1);
    assert_eq!(update.message.pixel, p);
    let data = get_game_data(&db, info.id).unwrap();
    assert_eq!(data.grid, vec![white(), white(), white(), p]);
    assert_eq!(data.game_info.id, info.id);
    assert_eq!(data.game_info.name, "demo");
}

#[test]
fn out_of_bounds_write_leaves_canvas_unchanged() {
    let mut db = Database::new();
    let info = create_game(&mut db, &request("demo", 2, 2), 0).unwrap();
    let p = RGBPixel { r: 1, g: 1, b: 1 };
    put_pixel(&mut db, info.id, &put(0, 0, p)).unwrap();
    let before = db.get_grid(info.id).unwrap();
    assert!(matches!(put_pixel(&mut db, info.id, &put(2, 0, p)), Err(PixelError::OutOfBounds)));
    assert!(matches!(put_pixel(&mut db, info.id, &put(0, 2, p)), Err(PixelError::OutOfBounds)));
    assert_eq!(db.put_pixel(info.id, 5, 5, p), Err(PixelError::OutOfBounds));
    assert_eq!(db.get_grid(info.id).unwrap(), before);
}

#[test]
fn write_to_missing_game_is_not_found() {
    let mut db = Database::new();
    let info = create_game(&mut db, &request("demo", 2, 2), 0).unwrap();
    let unknown = info.id ^ 0x5a5a_1234_dead_beef_0000_0000_0000_0001;
    let p = RGBPixel { r: 1, g: 1, b: 1 };
    assert!(matches!(put_pixel(&mut db, unknown, &put(0, 0, p)), Err(PixelError::NotFound)));
    assert!(get_game_info(&db, unknown).is_none());
    assert!(get_game_data(&db, unknown).is_none());
    assert!(db.get_grid(unknown).is_none());
    assert_eq!(db.get_grid(info.id).unwrap(), vec![white(); 4]);
}

#[test]
fn zero_sized_canvas_is_refused() {
    let mut db = Database::new();
    assert!(create_game(&mut db, &request("flat", 0, 2), 0).is_none());
    assert!(create_game(&mut db, &request("thin", 2, 0), 0).is_none());
    assert!(register_game(&mut db, 3, &request("empty", 0, 0), 0).is_none());
    assert!(db.get_game(3).is_none());
    assert!(get_all_games_info(&db).is_empty());
}

#[test]
fn oversized_canvas_is_refused() {
    let mut db = Database::new();
    assert!(create_game(&mut db, &request("huge", usize::MAX, 2), 0).is_none());
    assert!(get_all_games_info(&db).is_empty());
}

#[test]
fn fresh_ids_differ() {
    let mut db = Database::new();
    let a = create_game(&mut db, &request("a", 1, 1), 0).unwrap();
    let b = create_game(&mut db, &request("b", 1, 1), 0).unwrap();
    assert_ne!(a.id, b.id);
    assert_ne!(a.id, 0);
    assert_eq!(db.get_all_games().len(), 2);
}

#[test]
fn recreating_an_id_replaces_metadata_and_keeps_canvas() {
    let mut db = Database::new();
    register_game(&mut db, 42, &request("first", 2, 1), 1).unwrap();
    register_game(&mut db, 43, &request("other", 1, 1), 2).unwrap();
    let p = RGBPixel { r: 0, g: 128, b: 0 };
    db.put_pixel(42, 1, 0, p).unwrap();
    let info = register_game(&mut db, 42, &request("second", 2, 1), 3).unwrap();
    assert_eq!(info.id, 42);
    assert_eq!(info.name, "second");
    let all = get_all_games_info(&db);
    assert_eq!(all.len(), 2);
    assert_eq!(all[0].id, 42);
    assert_eq!(all[0].name, "second");
    assert_eq!(all[0].created_at, 3);
    assert_eq!(all[1].id, 43);
    assert_eq!(db.get_grid(42).unwrap(), vec![white(), p]);
}

#[test]
fn resized_game_heals_mismatched_canvas() {
    let mut db = Database::new();
    register_game(&mut db, 9, &request("g", 2, 1), 0).unwrap();
    db.put_pixel(9, 0, 0, RGBPixel { r: 1, g: 2, b: 3 }).unwrap();
    register_game(&mut db, 9, &request("g", 3, 1), 0).unwrap();
    assert_eq!(db.get_grid(9).unwrap(), vec![white(); 3]);
}

#[test]
fn loaded_payload_is_healed_on_read() {
    let mut db = Database::new();
    register_game(&mut db, 5, &request("g", 2, 1), 0).unwrap();
    let p = RGBPixel { r: 3, g: 2, b: 1 };
    assert!(db.load_grid(5, vec![p, p]));
    assert_eq!(db.get_grid(5).unwrap(), vec![p, p]);
    assert!(db.load_grid(5, vec![p, p, p]));
    assert_eq!(db.get_grid(5).unwrap(), vec![white(), white()]);
    assert!(!db.load_grid(6, vec![p]));
    db.put_pixel(5, 1, 0, p).unwrap();
    assert_eq!(db.get_grid(5).unwrap(), vec![white(), p]);
}

#[test]
fn game_lookup_and_listing() {
    let mut db = Database::new();
    assert!(db.get_game(1).is_none());
    register_game(&mut db, 1, &request("one", 4, 5), 11).unwrap();
    register_game(&mut db, 2, &request("two", 6, 7), 12).unwrap();
    let g = db.get_game(2).unwrap();
    assert_eq!(g.name, "two");
    assert_eq!(g.width, 6);
    assert_eq!(g.height, 7);
    assert_eq!(g.created_at, 12);
    let names: Vec<String> = get_all_games_info(&db).into_iter().map(|i| i.name).collect();
    assert_eq!(names, vec!["one".to_string(), "two".to_string()]);
    let info = get_game_info(&db, 1).unwrap();
    assert_eq!(info.id, 1);
    assert_eq!((info.width, info.height), (4, 5));
    assert_eq!(db.get_game(1).unwrap().id, 1);
    assert_eq!(get_game_data(&db, 2).unwrap().game_info.id, 2);
}

#[test]
fn grid_helpers() {
    assert_eq!(white_pixel(), white());
    assert_eq!(blank_grid(0), Vec::<RGBPixel>::new());
    assert_eq!(blank_grid(3), vec![white(); 3]);
    let p = RGBPixel { r: 0, g: 0, b: 0 };
    assert_eq!(heal_grid(None, 2), vec![white(); 2]);
    assert_eq!(heal_grid(Some(vec![p]), 2), vec![white(); 2]);
    assert_eq!(heal_grid(Some(vec![p, p]), 2), vec![p, p]);
    assert_eq!(cell_offset(3, 2, 2, 1), Some(5));
    assert_eq!(cell_offset(3, 2, 0, 0), Some(0));
    assert_eq!(cell_offset(3, 2, 3, 0), None);
    assert_eq!(cell_offset(3, 2, 0, 2), None);
}
