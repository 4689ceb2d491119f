use crate::texture::{Pos, Textures};
use vstd::prelude::*;

verus! {

/// The keys the demo reacts to, identified below by their platform
/// virtual-key codes.
#[derive(Debug, Clone, Copy, PartialEq, Eq, Structural)]
pub enum Key {
    Up,
    Down,
    Left,
    Right,
    W,
    A,
    S,
    D,
    LeftBrace,
    RightBrace,
    F3,
}

/// The virtual-key code a key is tracked under.
pub open spec fn spec_key_code(k: Key) -> u16 {
    match k {
        Key::Up => 0x26,
        Key::Down => 0x28,
        Key::Left => 0x25,
        Key::Right => 0x27,
        Key::W => 0x57,
        Key::A => 0x41,
        Key::S => 0x53,
        Key::D => 0x44,
        Key::LeftBrace => 0xdb,
        Key::RightBrace => 0xdd,
        Key::F3 => 0x72,
    }
}

impl Key {
    /// The virtual-key code a key is tracked under.
    pub fn code(self) -> (r: u16)
        ensures
            r == spec_key_code(self),
    {
        match self {
            Key::Up => 0x26,
            Key::Down => 0x28,
            Key::Left => 0x25,
            Key::Right => 0x27,
            Key::W => 0x57,
            Key::A => 0x41,
            Key::S => 0x53,
            Key::D => 0x44,
            Key::LeftBrace => 0xdb,
            Key::RightBrace => 0xdd,
            Key::F3 => 0x72,
        }
    }
}

/// Which keys are currently held down, one entry per 16-bit
/// virtual-key code. The surrounding message loop records key-down and
/// key-up events here.
pub struct Keyboard {
    keys: Vec<bool>,
}

impl Keyboard {
    /// The key table covers every 16-bit code.
    pub closed spec fn wf(self) -> bool {
        self.keys@.len() == 0x10000
    }

    /// Whether the key with the given code is held down.
    pub closed spec fn key_down(self, code: u16) -> bool {
        self.keys@[code as int]
    }

    /// A keyboard with no key held down.
    pub fn new() -> (kb: Keyboard)
        ensures
            kb.wf(),
            forall|c: u16| !kb.key_down(c),
    {
        let mut keys: Vec<bool> = Vec::new();
        let mut i: usize = 0;
        while i < 0x10000
            invariant
                i <= 0x10000,
                keys@.len() == i,
                forall|j: int| 0 <= j < i ==> !keys@[j],
            decreases 0x10000 - i,
        {
            keys.push(false);
            i = i + 1;
        }
        Keyboard { keys }
    }

    /// Records one key going down or up.
    pub fn set_key(&mut self, code: u16, down: bool)
        requires
            old(self).wf(),
        ensures
            final(self).wf(),
            final(self).key_down(code) == down,
            forall|c: u16| c != code ==> final(self).key_down(c) == old(self).key_down(c),
    {
        self.keys.set(code as usize, down);
    }

    /// Whether the given key is held down.
    pub fn is_pressed(&self, key: Key) -> (r: bool)
        requires
            self.wf(),
        ensures
            r == self.key_down(spec_key_code(key)),
    {
        let c = key.code();
        self.keys[c as usize]
    }
}

/// The scroll offsets that drive the procedural background.
#[derive(Debug, Clone, Copy, PartialEq, Eq, Structural)]
pub struct BackgroundState {
    pub x_offset: usize,
    pub y_offset: usize,
}

/// The player's rectangle.
#[derive(Debug, Clone, Copy, PartialEq, Eq, Structural)]
pub struct PlayerState {
    pub x: usize,
    pub y: usize,
    pub width: usize,
    pub height: usize,
}

/// The whole application state the per-frame update acts on.
pub struct State {
    pub background: BackgroundState,
    pub player: PlayerState,
    pub textures: Textures,
}

/// A saturating step of 5 toward zero.
pub open spec fn back_5(v: int) -> int {
    if v >= 5 {
        v - 5
    } else {
        0
    }
}

/// The player rectangle after one update under the given key states:
/// arrows move it 5 pixels, clamped at zero and at the frame on the
/// grown side; the braces trade one row of height against the top edge.
/// Each step sees the one before it, in this order: up, down, left,
/// right, shrink, grow.
pub open spec fn player_after(
    p: PlayerState,
    up: bool,
    down: bool,
    left: bool,
    right: bool,
    shrink: bool,
    grow: bool,
    fw: int,
    fh: int,
) -> PlayerState {
    let y1 = if up && p.y > 0 {
        back_5(p.y as int)
    } else {
        p.y as int
    };
    let y2 = if down && y1 + p.height < fh {
        y1 + 5
    } else {
        y1
    };
    let x1 = if left {
        back_5(p.x as int)
    } else {
        p.x as int
    };
    let x2 = if right && x1 + p.width < fw {
        x1 + 5
    } else {
        x1
    };
    let h1 = if shrink && p.height > 0 {
        p.height - 1
    } else {
        p.height as int
    };
    let y3 = if shrink && p.height > 0 {
        y2 + 1
    } else {
        y2
    };
    let h2 = if grow && y3 > 0 {
        h1 + 1
    } else {
        h1
    };
    let y4 = if grow && y3 > 0 {
        y3 - 1
    } else {
        y3
    };
    PlayerState { x: x2 as usize, y: y4 as usize, width: p.width, height: h2 as usize }
}

/// The logo's position after one update: the W, S, A and D keys move
/// it 5 pixels, clamped at zero and at the frame on the grown side.
pub open spec fn logo_pos_after(
    pos: Pos,
    tex_w: int,
    tex_h: int,
    w_key: bool,
    s_key: bool,
    a_key: bool,
    d_key: bool,
    fw: int,
    fh: int,
) -> Pos {
    let y1 = if w_key && pos.y > 0 {
        back_5(pos.y as int)
    } else {
        pos.y as int
    };
    let y2 = if s_key && y1 + tex_h < fh {
        y1 + 5
    } else {
        y1
    };
    let x1 = if a_key {
        back_5(pos.x as int)
    } else {
        pos.x as int
    };
    let x2 = if d_key && x1 + tex_w < fw {
        x1 + 5
    } else {
        x1
    };
    Pos { x: x2 as usize, y: y2 as usize }
}

/// One per-frame update of the application state from the current key
/// states: moves and resizes the player rectangle and moves the logo
/// texture, each clamped against the frame. Nothing else changes. The
/// bounds in `requires` keep every coordinate within the 32-bit range
/// the surrounding window layer works in.
pub fn update(state: &mut State, keyboard: &Keyboard, frame_width: usize, frame_height: usize)
    requires
        keyboard.wf(),
        frame_width <= 0x7fffffff,
        frame_height <= 0x7fffffff,
        old(state).player.x <= 0x7fffffff,
        old(state).player.y <= 0x7fffffff,
        old(state).player.width <= 0x7fffffff,
        old(state).player.height <= 0x7fffffff,
        old(state).textures.logo.pos.x <= 0x7fffffff,
        old(state).textures.logo.pos.y <= 0x7fffffff,
        old(state).textures.logo.width <= 0x7fffffff,
        old(state).textures.logo.height <= 0x7fffffff,
    ensures
        final(state).player == player_after(
            old(state).player,
            keyboard.key_down(spec_key_code(Key::Up)),
            keyboard.key_down(spec_key_code(Key::Down)),
            keyboard.key_down(spec_key_code(Key::Left)),
            keyboard.key_down(spec_key_code(Key::Right)),
            keyboard.key_down(spec_key_code(Key::LeftBrace)),
            keyboard.key_down(spec_key_code(Key::RightBrace)),
            frame_width as int,
            frame_height as int,
        ),
        final(state).textures.logo.pos == logo_pos_after(
            old(state).textures.logo.pos,
            old(state).textures.logo.width as int,
            old(state).textures.logo.height as int,
            keyboard.key_down(spec_key_code(Key::W)),
            keyboard.key_down(spec_key_code(Key::S)),
            keyboard.key_down(spec_key_code(Key::A)),
            keyboard.key_down(spec_key_code(Key::D)),
            frame_width as int,
            frame_height as int,
        ),
        final(state).background == old(state).background,
        final(state).player.width == old(state).player.width,
        final(state).textures.logo.bitmap == old(state).textures.logo.bitmap,
        final(state).textures.logo.width == old(state).textures.logo.width,
        final(state).textures.logo.height == old(state).textures.logo.height,
        final(state).textures.motorcycle == old(state).textures.motorcycle,
{
    let up = keyboard.is_pressed(Key::Up);
    let down = keyboard.is_pressed(Key::Down);
    let left = keyboard.is_pressed(Key::Left);
    let right = keyboard.is_pressed(Key::Right);
    let shrink = keyboard.is_pressed(Key::LeftBrace);
    let grow = keyboard.is_pressed(Key::RightBrace);
    let w_key = keyboard.is_pressed(Key::W);
    let s_key = keyboard.is_pressed(Key::S);
    let a_key = keyboard.is_pressed(Key::A);
    let d_key = keyboard.is_pressed(Key::D);
    state.player = update_player(
        state.player,
        up,
        down,
        left,
        right,
        shrink,
        grow,
        frame_width,
        frame_height,
    );
    state.textures.logo.pos = update_logo_pos(
        state.textures.logo.pos,
        state.textures.logo.width,
        state.textures.logo.height,
        w_key,
        s_key,
        a_key,
        d_key,
        frame_width,
        frame_height,
    );
}

/// One update of the player rectangle alone.
fn update_player(
    p: PlayerState,
    up: bool,
    down: bool,
    left: bool,
    right: bool,
    shrink: bool,
    grow: bool,
    frame_width: usize,
    frame_height: usize,
) -> (r: PlayerState)
    requires
        frame_width <= 0x7fffffff,
        frame_height <= 0x7fffffff,
        p.x <= 0x7fffffff,
        p.y <= 0x7fffffff,
        p.width <= 0x7fffffff,
        p.height <= 0x7fffffff,
    ensures
        r == player_after(
            p,
            up,
            down,
            left,
            right,
            shrink,
            grow,
            frame_width as int,
            frame_height as int,
        ),
{
    let mut py = p.y;
    let mut px = p.x;
    let mut ph = p.height;
    if up && py > 0 {
        py = if py >= 5 {
            py - 5
        } else {
            0
        };
    }
    if down && (py as u64) + (ph as u64) < (frame_height as u64) {
        py = py + 5;
    }
    if left {
        px = if px >= 5 {
            px - 5
        } else {
            0
        };
    }
    if right && (px as u64) + (p.width as u64) < (frame_width as u64) {
        px = px + 5;
    }
    if shrink && ph > 0 {
        ph = ph - 1;
        py = py + 1;
    }
    if grow && py > 0 {
        ph = ph + 1;
        py = py - 1;
    }
    PlayerState { x: px, y: py, width: p.width, height: ph }
}

/// One update of the logo's position alone.
fn update_logo_pos(
    pos: Pos,
    tex_w: usize,
    tex_h: usize,
    w_key: bool,
    s_key: bool,
    a_key: bool,
    d_key: bool,
    frame_width: usize,
    frame_height: usize,
) -> (r: Pos)
    requires
        frame_width <= 0x7fffffff,
        frame_height <= 0x7fffffff,
        pos.x <= 0x7fffffff,
        pos.y <= 0x7fffffff,
        tex_w <= 0x7fffffff,
        tex_h <= 0x7fffffff,
    ensures
        r == logo_pos_after(
            pos,
            tex_w as int,
            tex_h as int,
            w_key,
            s_key,
            a_key,
            d_key,
            frame_width as int,
            frame_height as int,
        ),
{
    let mut py = pos.y;
    let mut px = pos.x;
    if w_key && py > 0 {
        py = if py >= 5 {
            py - 5
        } else {
            0
        };
    }
    if s_key && (py as u64) + (tex_h as u64) < (frame_height as u64) {
        py = py + 5;
    }
    if a_key {
        px = if px >= 5 {
            px - 5
        } else {
            0
        };
    }
    if d_key && (px as u64) + (tex_w as u64) < (frame_width as u64) {
        px = px + 5;
    }
    Pos { x: px, y: py }
}

} // verus!
