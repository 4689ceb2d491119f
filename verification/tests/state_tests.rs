use png_raster::state::{update, BackgroundState, Key, Keyboard, PlayerState, State};
use png_raster::texture::{Pos, Texture, Textures};

fn tiny_texture(w: usize, h: usize, x: usize, y: usize) -> Texture {
    Texture { bitmap: vec![0u32; w * h], width: w, height: h, pos: Pos { x, y } }
}

fn demo_state() -> State {
    State {
        background: BackgroundState { x_offset: 0, y_offset: 0 },
        player: PlayerState { x: 10, y: 10, width: 5, height: 5 },
        textures: Textures {
            logo: tiny_texture(4, 4, 60, 80),
            motorcycle: tiny_texture(2, 2, 200, 80),
        },
    }
}

#[test]
fn keyboard_tracks_key_codes() {
    let mut kb = Keyboard::new();
    assert!(!kb.is_pressed(Key::Up));
    kb.set_key(Key::Up.code(), true);
    assert!(kb.is_pressed(Key::Up));
    assert!(!kb.is_pressed(Key::Down));
    kb.set_key(Key::Up.code(), false);
    assert!(!kb.is_pressed(Key::Up));
}

#[test]
fn key_codes_are_the_platform_virtual_keys() {
    assert_eq!(Key::Up.code(), 0x26);
    assert_eq!(Key::Down.code(), 0x28);
    assert_eq!(Key::Left.code(), 0x25);
    assert_eq!(Key::Right.code(), 0x27);
    assert_eq!(Key::W.code(), 0x57);
    assert_eq!(Key::F3.code(), 0x72);
}

#[test]
fn update_moves_player_right_within_bounds() {
    let mut state = demo_state();
    let mut kb = Keyboard::new();
    kb.set_key(Key::Right.code(), true);
    update(&mut state, &kb, 100, 100);
    assert_eq!(state.player.x, 15);
    assert_eq!(state.player.y, 10);
}

#[test]
fn update_stops_player_at_right_edge() {
    let mut state = demo_state();
    state.player.x = 95;
    let mut kb = Keyboard::new();
    kb.set_key(Key::Right.code(), true);
    update(&mut state, &kb, 100, 100);
    assert_eq!(state.player.x, 95);
}

#[test]
fn update_clamps_player_at_top() {
    let mut state = demo_state();
    state.player.y = 3;
    let mut kb = Keyboard::new();
    kb.set_key(Key::Up.code(), true);
    update(&mut state, &kb, 100, 100);
    assert_eq!(state.player.y, 0);
}

#[test]
fn update_braces_trade_height_for_top_edge() {
    let mut state = demo_state();
    let mut kb = Keyboard::new();
    kb.set_key(Key::LeftBrace.code(), true);
    update(&mut state, &kb, 100, 100);
    assert_eq!(state.player.height, 4);
    assert_eq!(state.player.y, 11);
    kb.set_key(Key::LeftBrace.code(), false);
    kb.set_key(Key::RightBrace.code(), true);
    update(&mut state, &kb, 100, 100);
    assert_eq!(state.player.height, 5);
    assert_eq!(state.player.y, 10);
}

#[test]
fn update_moves_logo_with_wasd() {
    let mut state = demo_state();
    let mut kb = Keyboard::new();
    kb.set_key(Key::W.code(), true);
    kb.set_key(Key::D.code(), true);
    update(&mut state, &kb, 640, 480);
    assert_eq!(state.textures.logo.pos.x, 65);
    assert_eq!(state.textures.logo.pos.y, 75);
    assert_eq!(state.player.x, 10);
    assert_eq!(state.textures.motorcycle.pos.x, 200);
}

#[test]
fn with_pos_places_a_texture() {
    let tex = tiny_texture(2, 2, 0, 0).with_pos(33, 44);
    assert_eq!(tex.pos.x, 33);
    assert_eq!(tex.pos.y, 44);
    assert_eq!(tex.width, 2);
    assert_eq!(tex.height, 2);
}
