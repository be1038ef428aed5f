use vstd::prelude::*;

verus! {

/// One cell of a canvas: three 8-bit color channels.
#[derive(Clone, Copy, Debug, PartialEq, Eq, Structural)]
pub struct RGBPixel {
    /// Red component (0-255)
    pub r: u8,
    /// Green component (0-255)
    pub g: u8,
    /// Blue component (0-255)
    pub b: u8,
}

/// A game: a named canvas of fixed dimensions. The id is the 128-bit value of
/// the game's UUID.
#[derive(Clone, Debug)]
pub struct Game {
    /// Unique game identifier
    pub id: u128,
    /// Game name
    pub name: String,
    /// Canvas width in pixels
    pub width: usize,
    /// Canvas height in pixels
    pub height: usize,
    /// Game creation timestamp (seconds since the Unix epoch)
    pub created_at: u64,
}

/// What a client sends to create a game.
#[derive(Clone, Debug)]
pub struct CreateGameRequest {
    /// Name of the game
    pub name: String,
    /// Canvas width in pixels
    pub width: usize,
    /// Canvas height in pixels
    pub height: usize,
}

/// What a client sends to place one pixel.
#[derive(Clone, Copy, Debug)]
pub struct PutPixelRequest {
    /// X coordinate (0-based)
    pub x: usize,
    /// Y coordinate (0-based)
    pub y: usize,
    /// RGB pixel data
    pub pixel: RGBPixel,
}

/// The public description of a game.
#[derive(Clone, Debug)]
pub struct GameInfo {
    /// Unique game identifier
    pub id: u128,
    /// Game name
    pub name: String,
    /// Canvas width in pixels
    pub width: usize,
    /// Canvas height in pixels
    pub height: usize,
    /// Game creation timestamp
    pub created_at: u64,
}

/// A game's description together with its full canvas, row-major.
#[derive(Clone, Debug)]
pub struct GridData {
    /// Basic game information
    pub game_info: GameInfo,
    /// The canvas, `width * height` pixels in row-major order
    pub grid: Vec<RGBPixel>,
}

/// One accepted pixel write, as it is sent to the subscribers of its game.
#[derive(Clone, Copy, Debug)]
pub struct PixelUpdateMessage {
    pub game_id: u128,
    pub x: usize,
    pub y: usize,
    pub pixel: RGBPixel,
}

/// `info` describes `game` field for field.
pub open spec fn describes(info: GameInfo, game: Game) -> bool {
    &&& info.id == game.id
    &&& info.name@ == game.name@
    &&& info.width == game.width
    &&& info.height == game.height
    &&& info.created_at == game.created_at
}

impl GameInfo {
    /// The description of `game`.
    pub fn from_game(game: &Game) -> (r: GameInfo)
        ensures
            describes(r, *game),
    {
        GameInfo {
            id: game.id,
            name: game.name.clone(),
            width: game.width,
            height: game.height,
            created_at: game.created_at,
        }
    }
}

} // verus!
