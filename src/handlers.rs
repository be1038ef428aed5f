use crate::canvas::valid_size;
use crate::database::{Database, PixelError};
use crate::models::{
    describes, CreateGameRequest, Game, GameInfo, GridData, PixelUpdateMessage, PutPixelRequest,
};
use crate::websocket::PixelUpdate;
use vstd::prelude::*;

verus! {

/// Relies on `uuid::Uuid::new_v4` for a fresh random id, read as its 128-bit
/// value with `Uuid::as_u128`. Nothing is known of the value.
#[verifier::external_body]
fn new_game_id() -> (r: u128) {
    uuid::Uuid::new_v4().as_u128()
}

/// Records a game under the id `game_id`, as `req` describes it, created at
/// `created_at`. Refused (`None`, nothing changed) where a dimension is 0
/// or the number of cells does not fit in a `usize`.
pub fn register_game(db: &mut Database, game_id: u128, req: &CreateGameRequest, created_at: u64) -> (r:
    Option<GameInfo>)
    requires
        old(db).wf(),
    ensures
        final(db).wf(),
        r.is_some() == valid_size(req.width, req.height),
        r.is_none() ==> *final(db) == *old(db),
        r.is_some() ==> {
            let info = r.unwrap();
            &&& info.id == game_id
            &&& info.name@ == req.name@
            &&& info.width == req.width
            &&& info.height == req.height
            &&& info.created_at == created_at
            &&& final(db).has_game(game_id)
            &&& describes(info, final(db).game(game_id))
            &&& final(db).stored(game_id) == old(db).stored(game_id)
            &&& final(db).ids() == if old(db).has_game(game_id) {
                old(db).ids()
            } else {
                old(db).ids().push(game_id)
            }
            &&& forall|g: u128|
                g != game_id ==> {
                    &&& final(db).has_game(g) == old(db).has_game(g)
                    &&& old(db).has_game(g) ==> final(db).game(g) == old(db).game(g)
                    &&& final(db).stored(g) == old(db).stored(g)
                }
        },
{
    if req.width == 0 || req.height == 0 {
        return None;
    }
    match req.width.checked_mul(req.height) {
        None => None,
        Some(_) => {
            let game = Game {
                id: game_id,
                name: req.name.clone(),
                width: req.width,
                height: req.height,
                created_at,
            };
            let info = GameInfo::from_game(&game);
            db.create_game(game);
            Some(info)
        },
    }
}

/// Creates a game as `req` describes it, under a fresh random id. Refused
/// (`None`, nothing changed) where a dimension is 0 or the number of cells
/// does not fit in a `usize`.
pub fn create_game(db: &mut Database, req: &CreateGameRequest, created_at: u64) -> (r: Option<
    GameInfo,
>)
    requires
        old(db).wf(),
    ensures
        final(db).wf(),
        r.is_some() == valid_size(req.width, req.height),
        r.is_none() ==> *final(db) == *old(db),
        r.is_some() ==> {
            let info = r.unwrap();
            &&& info.name@ == req.name@
            &&& info.width == req.width
            &&& info.height == req.height
            &&& info.created_at == created_at
            &&& final(db).has_game(info.id)
            &&& describes(info, final(db).game(info.id))
            &&& final(db).stored(info.id) == old(db).stored(info.id)
            &&& final(db).ids() == if old(db).has_game(info.id) {
                old(db).ids()
            } else {
                old(db).ids().push(info.id)
            }
            &&& forall|g: u128|
                g != info.id ==> {
                    &&& final(db).has_game(g) == old(db).has_game(g)
                    &&& old(db).has_game(g) ==> final(db).game(g) == old(db).game(g)
                    &&& final(db).stored(g) == old(db).stored(g)
                }
        },
{
    let id = new_game_id();
    register_game(db, id, req, created_at)
}

/// Places a pixel, and on success returns the update to fan out to the
/// subscribers of the game.
pub fn put_pixel(db: &mut Database, game_id: u128, req: &PutPixelRequest) -> (r: Result<
    PixelUpdate,
    PixelError,
>)
    requires
        old(db).wf(),
    ensures
        final(db).wf(),
        r matches Err(PixelError::NotFound) <==> !old(db).has_game(game_id),
        r matches Err(PixelError::OutOfBounds) <==> old(db).has_game(game_id) && !(req.x
            < old(db).game(game_id).width && req.y < old(db).game(game_id).height),
        r.is_ok() <==> old(db).has_game(game_id) && req.x < old(db).game(game_id).width && req.y
            < old(db).game(game_id).height,
        r.is_err() ==> *final(db) == *old(db),
        r.is_ok() ==> final(db).written(*old(db), game_id, req.x as nat, req.y as nat, req.pixel),
        r matches Ok(u) ==> u.game_id == game_id && u.message == (PixelUpdateMessage {
            game_id,
            x: req.x,
            y: req.y,
            pixel: req.pixel,
        }),
{
    match db.put_pixel(game_id, req.x, req.y, req.pixel) {
        Ok(()) => Ok(
            PixelUpdate {
                game_id,
                message: PixelUpdateMessage { game_id, x: req.x, y: req.y, pixel: req.pixel },
            },
        ),
        Err(e) => Err(e),
    }
}

/// The description of a game, if there is one.
pub fn get_game_info(db: &Database, game_id: u128) -> (r: Option<GameInfo>)
    requires
        db.wf(),
    ensures
        r.is_some() == db.has_game(game_id),
        r.is_some() ==> describes(r.unwrap(), db.game(game_id)),
        r.is_some() ==> r.unwrap().id == game_id,
{
    match db.get_game(game_id) {
        Some(game) => Some(GameInfo::from_game(game)),
        None => None,
    }
}

/// The descriptions of all games, in the order of the game index.
pub fn get_all_games_info(db: &Database) -> (r: Vec<GameInfo>)
    requires
        db.wf(),
    ensures
        r@.len() == db.all_games().len(),
        forall|i: int| 0 <= i < r@.len() ==> describes(#[trigger] r@[i], db.all_games()[i]),
{
    let games = db.get_all_games();
    let mut r: Vec<GameInfo> = Vec::new();
    let mut i: usize = 0;
    while i < games.len()
        invariant
            games@ == db.all_games(),
            i <= games.len(),
            r@.len() == i,
            forall|k: int| 0 <= k < i ==> describes(#[trigger] r@[k], games@[k]),
        decreases games.len() - i,
    {
        r.push(GameInfo::from_game(&games[i]));
        i = i + 1;
    }
    r
}

/// A game's description and its full canvas, if there is such a game.
pub fn get_game_data(db: &Database, game_id: u128) -> (r: Option<GridData>)
    requires
        db.wf(),
    ensures
        r.is_some() == db.has_game(game_id),
        r.is_some() ==> describes(r.unwrap().game_info, db.game(game_id)),
        r.is_some() ==> r.unwrap().game_info.id == game_id,
        r.is_some() ==> r.unwrap().grid@ == db.canvas(game_id),
{
    match db.get_game(game_id) {
        Some(game) => {
            let game_info = GameInfo::from_game(game);
            match db.get_grid(game_id) {
                Some(grid) => Some(GridData { game_info, grid }),
                None => None,
            }
        },
        None => None,
    }
}

} // verus!
