use tile_browser::display::{approach, App, DImage, NavKey, RenderedImage, ROW_HEIGHT, SCALE_ONE, SELECTED_BORDER, TITLE_HEIGHT, ZOOM_CEILING};
use tile_browser::worker::DImageLoaded;

fn app_with_rows(tiles: &[usize]) -> App {
    let mut app = App::new(5);
    let mut texture = 100u32;
    for (row, &n) in tiles.iter().enumerate() {
        app.push_row(RenderedImage { texture_id: row as u32, width: 1, height: 1 });
        for _ in 0..n {
            texture += 1;
            app.add_loaded_image(DImageLoaded { texture_id: texture, container_idx: row });
        }
    }
    app
}

#[test]
fn approach_moves_by_fraction_of_distance() {
    // dt of 10 ms is a tenth of the smoothing constant
    assert_eq!(approach(0, 1000, 10_000), 100);
    assert_eq!(approach(1000, 0, 10_000), 900);
    assert_eq!(approach(500, 500, 10_000), 500);
    assert_eq!(approach(0, 7, 10_000), 0);
    assert_eq!(approach(-1000, 1000, 50_000), 0);
}

#[test]
fn approach_overshoots_with_large_dt_and_saturates() {
    assert_eq!(approach(0, 1000, 200_000), 2000);
    assert_eq!(approach(0, i64::MAX, 1_000_000), i64::MAX);
    assert_eq!(approach(0, i64::MIN, 1_000_000), i64::MIN);
}

#[test]
fn viewport_converges_without_overshoot() {
    let mut app = app_with_rows(&[1, 1, 1]);
    app.handle_key(NavKey::Down);
    let target = (TITLE_HEIGHT + ROW_HEIGHT) as i64;
    let mut last = app.viewport.pos.y;
    for _ in 0..200 {
        app.update(16_000);
        assert_eq!(app.viewport.desired_pos.y, target);
        assert!(app.viewport.pos.y >= last);
        assert!(app.viewport.pos.y <= target);
        last = app.viewport.pos.y;
    }
    assert!(target - last < 100);
}

#[test]
fn selected_tile_grows_and_others_relax() {
    let mut app = app_with_rows(&[2]);
    app.update(100_000);
    assert_eq!(app.containers[0].images[0].scale, 1100);
    assert_eq!(app.containers[0].images[0].border, SELECTED_BORDER);
    assert_eq!(app.containers[0].images[1].scale, SCALE_ONE);
    assert_eq!(app.containers[0].images[1].border, 0);
    app.handle_key(NavKey::Right);
    app.update(50_000);
    assert_eq!(app.containers[0].images[0].scale, 1050);
    assert_eq!(app.containers[0].images[0].border, 0);
    assert_eq!(app.containers[0].images[1].scale, 1050);
}

#[test]
fn tile_scale_stays_within_bounds() {
    let mut app = app_with_rows(&[3, 2]);
    for step in 0..500u64 {
        if step % 37 == 0 {
            app.handle_key(NavKey::Right);
        }
        if step % 53 == 0 {
            app.handle_key(NavKey::Down);
        }
        if step % 71 == 0 {
            app.handle_key(NavKey::Up);
        }
        app.update(7_000 + step * 1_000);
        for row in &app.containers {
            for tile in &row.images {
                assert!(tile.scale >= SCALE_ONE && tile.scale <= ZOOM_CEILING);
            }
        }
    }
    app.update(10_000_000);
    assert_eq!(app.containers[app.selected_container_idx].images[app.containers[app.selected_container_idx].desired_selected_tile_idx].scale, ZOOM_CEILING);
}

#[test]
fn selection_stops_at_last_tile_while_tiles_arrive() {
    let mut app = app_with_rows(&[2]);
    for _ in 0..5 {
        app.handle_key(NavKey::Right);
    }
    assert_eq!(app.containers[0].desired_selected_tile_idx, 1);
    app.add_loaded_image(DImageLoaded { texture_id: 900, container_idx: 0 });
    for _ in 0..5 {
        app.handle_key(NavKey::Right);
        assert!(app.containers[0].desired_selected_tile_idx < app.containers[0].images.len());
    }
    assert_eq!(app.containers[0].desired_selected_tile_idx, 2);
    for _ in 0..5 {
        app.handle_key(NavKey::Left);
    }
    assert_eq!(app.containers[0].desired_selected_tile_idx, 0);
}

#[test]
fn selection_on_empty_row_stays_at_zero() {
    let mut app = app_with_rows(&[0]);
    app.handle_key(NavKey::Right);
    app.handle_key(NavKey::Left);
    assert_eq!(app.containers[0].desired_selected_tile_idx, 0);
}

#[test]
fn row_selection_stays_within_rows() {
    let mut app = app_with_rows(&[1, 1]);
    app.handle_key(NavKey::Up);
    assert_eq!(app.selected_container_idx, 0);
    app.handle_key(NavKey::Down);
    app.handle_key(NavKey::Down);
    assert_eq!(app.selected_container_idx, 1);
    let mut empty = App::new(0);
    empty.handle_key(NavKey::Down);
    empty.handle_key(NavKey::Right);
    assert_eq!(empty.selected_container_idx, 0);
}

#[test]
fn tiles_ready_once_second_row_has_four() {
    let mut app = app_with_rows(&[5, 3]);
    app.update(1_000);
    assert!(!app.has_tiles_loaded);
    app.add_loaded_image(DImageLoaded { texture_id: 1, container_idx: 1 });
    app.update(1_000);
    assert!(app.has_tiles_loaded);
    let mut single = app_with_rows(&[9]);
    single.update(1_000);
    assert!(!single.has_tiles_loaded);
}

#[test]
fn row_selection_glides_in_thousandths() {
    let mut app = app_with_rows(&[3]);
    app.handle_key(NavKey::Right);
    app.update(10_000);
    assert_eq!(app.containers[0].selected_tile_idx, 100);
    app.update(10_000);
    assert_eq!(app.containers[0].selected_tile_idx, 190);
}

#[test]
fn image_for_unknown_row_is_dropped() {
    let mut app = app_with_rows(&[1]);
    app.add_loaded_image(DImageLoaded { texture_id: 3, container_idx: 4 });
    assert_eq!(app.containers.len(), 1);
    assert_eq!(app.containers[0].images.len(), 1);
    assert_eq!(app.containers[0].images[0], DImage { scale: SCALE_ONE, border: 0, texture_id: 101 });
}
