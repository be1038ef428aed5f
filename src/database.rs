use crate::canvas::{
    cell_offset, heal_grid, healed, in_bounds, lemma_offset_in_grid, offset, payload, valid_size,
    white,
};
use crate::models::{Game, RGBPixel};

use vstd::prelude::*;

verus! {

/// Why a pixel write was refused.
#[derive(Clone, Copy, Debug, PartialEq, Eq, Structural)]
pub enum PixelError {
    /// No game has the given id.
    NotFound,
    /// The cell lies outside the game's canvas.
    OutOfBounds,
}

/// The canvas store: every game, in the order in which it was first created,
/// and beside each the canvas payload last stored for it, if any.
///
/// A payload is kept as it was handed in; reads heal it, so that a missing or
/// wrongly sized payload stands for a blank canvas.
#[derive(Clone)]
pub struct Database {
    games: Vec<Game>,
    grids: Vec<Option<Vec<RGBPixel>>>,
}

/// A copy of `g`, field for field.
fn copy_game(g: &Game) -> (r: Game)
    ensures
        r == *g,
{
    Game {
        id: g.id,
        name: g.name.clone(),
        width: g.width,
        height: g.height,
        created_at: g.created_at,
    }
}

impl Database {
    /// Ids are unique, each game has one payload slot, and every canvas size
    /// fits in a `usize`.
    pub closed spec fn wf(self) -> bool {
        &&& self.games.len() == self.grids.len()
        &&& forall|i: int, j: int|
            0 <= i < self.games.len() && 0 <= j < self.games.len() && i != j
                ==> #[trigger] self.games@[i].id != #[trigger] self.games@[j].id
        &&& forall|i: int|
            0 <= i < self.games.len() ==> valid_size(
                #[trigger] self.games@[i].width,
                self.games@[i].height,
            )
    }

    /// The store holds a game with this id.
    pub closed spec fn has_game(self, id: u128) -> bool {
        exists|i: int| 0 <= i < self.games.len() && #[trigger] self.games@[i].id == id
    }

    closed spec fn slot(self, id: u128) -> int {
        choose|i: int| 0 <= i < self.games.len() && #[trigger] self.games@[i].id == id
    }

    /// The game with this id (meaningful where `has_game(id)`).
    pub closed spec fn game(self, id: u128) -> Game {
        self.games@[self.slot(id)]
    }

    /// The payload last stored for the game, if any.
    pub closed spec fn stored(self, id: u128) -> Option<Seq<RGBPixel>> {
        if self.has_game(id) {
            payload(self.grids@[self.slot(id)])
        } else {
            None
        }
    }

    /// The number of cells of the game's canvas.
    pub open spec fn size_of(self, id: u128) -> nat {
        (self.game(id).width * self.game(id).height) as nat
    }

    /// The game's canvas as a reader sees it.
    pub open spec fn canvas(self, id: u128) -> Seq<RGBPixel> {
        healed(self.stored(id), self.size_of(id))
    }

    /// All games, in the order of the game index.
    pub closed spec fn all_games(self) -> Seq<Game> {
        self.games@
    }

    /// The ids of the game index, in order.
    pub open spec fn ids(self) -> Seq<u128> {
        self.all_games().map_values(|g: Game| g.id)
    }

    /// `self` is `before` after `pixel` was written at `(x, y)` of game
    /// `game_id`: that game's canvas, healed, was stored again with the one cell
    /// changed, and nothing else changed.
    pub open spec fn written(self, before: Database, game_id: u128, x: nat, y: nat, pixel: RGBPixel) -> bool {
        &&& self.stored(game_id) == Some(
            before.canvas(game_id).update(offset(before.game(game_id).width as nat, x, y) as int, pixel),
        )
        &&& self.all_games() == before.all_games()
        &&& forall|g: u128| #[trigger] self.has_game(g) == before.has_game(g)
        &&& forall|g: u128| #[trigger] self.game(g) == before.game(g)
        &&& forall|g: u128| g != game_id ==> #[trigger] self.stored(g) == before.stored(g)
    }

    proof fn lemma_slot(self, id: u128, i: int)
        requires
            self.wf(),
            0 <= i < self.games.len(),
            self.games@[i].id == id,
        ensures
            self.has_game(id),
            self.slot(id) == i,
    {
        assert(self.has_game(id));
        let j = self.slot(id);
        assert(self.games@[j].id == id);
    }

    /// Only slots of game `id` changed, or were added for it: every other
    /// game keeps its membership, metadata and stored canvas.
    proof fn lemma_others_kept(before: Database, after: Database, id: u128)
        requires
            before.wf(),
            after.wf(),
            before.games.len() <= after.games.len(),
            forall|j: int|
                0 <= j < before.games.len() ==> if #[trigger] before.games@[j].id == id {
                    after.games@[j].id == id
                } else {
                    after.games@[j] == before.games@[j] && after.grids@[j] == before.grids@[j]
                },
            forall|j: int| before.games.len() <= j < after.games.len() ==> #[trigger] after.games@[j].id == id,
        ensures
            forall|g: u128|
                g != id ==> {
                    &&& #[trigger] after.has_game(g) == before.has_game(g)
                    &&& before.has_game(g) ==> after.game(g) == before.game(g)
                    &&& after.stored(g) == before.stored(g)
                },
    {
        assert forall|g: u128| g != id implies {
            &&& #[trigger] after.has_game(g) == before.has_game(g)
            &&& before.has_game(g) ==> after.game(g) == before.game(g)
            &&& after.stored(g) == before.stored(g)
        } by {
            if before.has_game(g) {
                let j = before.slot(g);
                after.lemma_slot(g, j);
            }
            if after.has_game(g) {
                let j = after.slot(g);
                assert(before.games@[j].id != id);
                before.lemma_slot(g, j);
            }
        }
    }

    /// The game index and lookup agree: the index has no repeated id, it lists
    /// exactly the games of the store, each listed game is the one stored
    /// under its id, and every game has a canvas size it can have.
    pub proof fn lemma_index(self)
        requires
            self.wf(),
        ensures
            self.ids().no_duplicates(),
            forall|g: u128| #[trigger] self.has_game(g) <==> self.ids().contains(g),
            forall|i: int|
                0 <= i < self.all_games().len() ==> self.has_game(#[trigger] self.all_games()[i].id)
                    && self.game(self.all_games()[i].id) == self.all_games()[i],
            forall|g: u128|
                #[trigger] self.has_game(g) ==> self.game(g).id == g && valid_size(
                    self.game(g).width,
                    self.game(g).height,
                ),
    {
        assert forall|i: int, j: int|
            0 <= i < self.ids().len() && 0 <= j < self.ids().len() && i != j implies self.ids()[i]
            != self.ids()[j] by {
            assert(self.games@[i].id != self.games@[j].id);
        }
        assert forall|g: u128| #[trigger] self.has_game(g) <==> self.ids().contains(g) by {
            if self.has_game(g) {
                let i = self.slot(g);
                assert(self.ids()[i] == g);
            }
            if self.ids().contains(g) {
                let i = choose|i: int| 0 <= i < self.ids().len() && self.ids()[i] == g;
                assert(self.games@[i].id == g);
            }
        }
        assert forall|i: int| 0 <= i < self.all_games().len() implies self.has_game(
            #[trigger] self.all_games()[i].id,
        ) && self.game(self.all_games()[i].id) == self.all_games()[i] by {
            self.lemma_slot(self.games@[i].id, i);
        }
        assert forall|g: u128| #[trigger] self.has_game(g) implies self.game(g).id == g && valid_size(
            self.game(g).width,
            self.game(g).height,
        ) by {
            let i = self.slot(g);
            assert(valid_size(self.games@[i].width, self.games@[i].height));
        }
    }

    /// The game found under an id carries that id.
    pub proof fn lemma_game_id(self, id: u128)
        requires
            self.wf(),
            self.has_game(id),
        ensures
            self.game(id).id == id,
    {
        let i = self.slot(id);
        assert(self.games@[i].id == id);
    }

    /// The size of every game's canvas fits in a `usize`.
    pub proof fn lemma_size_fits(self, id: u128)
        requires
            self.wf(),
            self.has_game(id),
        ensures
            self.game(id).width * self.game(id).height <= usize::MAX,
    {
        let i = self.slot(id);
        assert(self.games@[i].width * self.games@[i].height <= usize::MAX);
    }

    /// An empty store.
    pub fn new() -> (r: Database)
        ensures
            r.wf(),
            r.all_games().len() == 0,
            forall|id: u128| !#[trigger] r.has_game(id),
            forall|id: u128| #[trigger] r.stored(id) is None,
    {
        Database { games: Vec::new(), grids: Vec::new() }
    }

    /// Records `game`. A new id is appended to the game index with no stored
    /// canvas; an id already present keeps its place and its stored canvas,
    /// and only its metadata is replaced.
    pub fn create_game(&mut self, game: Game)
        requires
            old(self).wf(),
            valid_size(game.width, game.height),
        ensures
            final(self).wf(),
            final(self).has_game(game.id),
            final(self).game(game.id) == game,
            final(self).stored(game.id) == old(self).stored(game.id),
            final(self).ids() == if old(self).has_game(game.id) {
                old(self).ids()
            } else {
                old(self).ids().push(game.id)
            },
            forall|g: u128|
                g != game.id ==> {
                    &&& final(self).has_game(g) == old(self).has_game(g)
                    &&& old(self).has_game(g) ==> final(self).game(g) == old(self).game(g)
                    &&& final(self).stored(g) == old(self).stored(g)
                },
    {
        let id = game.id;
        match self.find(id) {
            Some(i) => {
                self.games.set(i, game);
                proof {
                    self.lemma_slot(id, i as int);
                    Database::lemma_others_kept(*old(self), *self, id);
                    assert(self.ids() =~= old(self).ids());
                }
            },
            None => {
                let ghost n = self.games.len() as int;
                self.games.push(game);
                self.grids.push(None);
                proof {
                    self.lemma_slot(id, n);
                    Database::lemma_others_kept(*old(self), *self, id);
                    assert(self.ids() =~= old(self).ids().push(id));
                }
            },
        }
    }

    /// The game with this id, if the store holds one.
    pub fn get_game(&self, game_id: u128) -> (r: Option<&Game>)
        requires
            self.wf(),
        ensures
            r.is_some() == self.has_game(game_id),
            r.is_some() ==> *r.unwrap() == self.game(game_id),
            r.is_some() ==> r.unwrap().id == game_id,
    {
        match self.find(game_id) {
            Some(i) => Some(&self.games[i]),
            None => None,
        }
    }

    /// Every game of the index, in order.
    pub fn get_all_games(&self) -> (r: Vec<Game>)
        requires
            self.wf(),
        ensures
            r@ == self.all_games(),
    {
        let mut r: Vec<Game> = Vec::new();
        let mut i: usize = 0;
        while i < self.games.len()
            invariant
                i <= self.games.len(),
                r@ == self.games@.subrange(0, i as int),
            decreases self.games.len() - i,
        {
            r.push(copy_game(&self.games[i]));
            i = i + 1;
            assert(r@ =~= self.games@.subrange(0, i as int));
        }
        assert(r@ =~= self.games@);
        r
    }

    /// The game's canvas, healed: the stored payload where it has the right
    /// size, else a blank canvas. `None` where there is no such game.
    pub fn get_grid(&self, game_id: u128) -> (r: Option<Vec<RGBPixel>>)
        requires
            self.wf(),
        ensures
            r.is_some() == self.has_game(game_id),
            r.is_some() ==> r.unwrap()@ == self.canvas(game_id),
            r.is_some() ==> r.unwrap()@.len() == self.size_of(game_id),
    {
        match self.find(game_id) {
            Some(i) => {
                let size = self.games[i].width * self.games[i].height;
                let stored = self.grids[i].clone();
                Some(heal_grid(stored, size))
            },
            None => None,
        }
    }

    /// Writes `pixel` at `(x, y)` of the game's canvas. The canvas is healed
    /// first, and the whole of it is stored again.
    pub fn put_pixel(&mut self, game_id: u128, x: usize, y: usize, pixel: RGBPixel) -> (r: Result<
        (),
        PixelError,
    >)
        requires
            old(self).wf(),
        ensures
            final(self).wf(),
            r == Err::<(), PixelError>(PixelError::NotFound) <==> !old(self).has_game(game_id),
            r == Err::<(), PixelError>(PixelError::OutOfBounds) <==> old(self).has_game(game_id)
                && !in_bounds(
                old(self).game(game_id).width as nat,
                old(self).game(game_id).height as nat,
                x as nat,
                y as nat,
            ),
            r.is_ok() <==> old(self).has_game(game_id) && in_bounds(
                old(self).game(game_id).width as nat,
                old(self).game(game_id).height as nat,
                x as nat,
                y as nat,
            ),
            r.is_err() ==> *final(self) == *old(self),
            r.is_ok() ==> final(self).written(*old(self), game_id, x as nat, y as nat, pixel),
    {
        let i = match self.find(game_id) {
            Some(i) => i,
            None => {
                return Err(PixelError::NotFound);
            },
        };
        let width = self.games[i].width;
        let height = self.games[i].height;
        proof {
            old(self).lemma_size_fits(game_id);
        }
        let pos = match cell_offset(width, height, x, y) {
            Some(pos) => pos,
            None => {
                return Err(PixelError::OutOfBounds);
            },
        };
        let mut stored: Option<Vec<RGBPixel>> = None;
        std::mem::swap(&mut self.grids[i], &mut stored);
        let mut grid = heal_grid(stored, width * height);
        grid.set(pos, pixel);
        self.grids.set(i, Some(grid));
        proof {
            self.lemma_slot(game_id, i as int);
            Database::lemma_others_kept(*old(self), *self, game_id);
        }
        Ok(())
    }

    /// Sets the stored payload of a game, as it was read back from durable
    /// storage; it is healed when read. Returns whether the game exists.
    pub fn load_grid(&mut self, game_id: u128, grid: Vec<RGBPixel>) -> (r: bool)
        requires
            old(self).wf(),
        ensures
            final(self).wf(),
            r == old(self).has_game(game_id),
            final(self).all_games() == old(self).all_games(),
            r ==> final(self).stored(game_id) == Some(grid@),
            !r ==> *final(self) == *old(self),
            forall|g: u128| g != game_id ==> #[trigger] final(self).stored(g) == old(self).stored(g),
    {
        match self.find(game_id) {
            Some(i) => {
                self.grids.set(i, Some(grid));
                proof {
                    self.lemma_slot(game_id, i as int);
                    Database::lemma_others_kept(*old(self), *self, game_id);
                }
                true
            },
            None => false,
        }
    }

    /// A game whose canvas was never written reads as `width * height`
    /// white cells.
    pub proof fn lemma_unwritten_canvas_is_white(self, id: u128)
        requires
            self.wf(),
            self.has_game(id),
            self.stored(id) is None,
        ensures
            self.canvas(id).len() == self.game(id).width * self.game(id).height,
            forall|k: int| 0 <= k < self.canvas(id).len() ==> #[trigger] self.canvas(id)[k] == white(),
    {
        self.lemma_size_fits(id);
    }

    /// Metadata and membership are read from the game list alone.
    proof fn lemma_same_games(self, other: Database, id: u128)
        requires
            self.all_games() == other.all_games(),
        ensures
            self.has_game(id) == other.has_game(id),
            self.game(id) == other.game(id),
            self.size_of(id) == other.size_of(id),
    {
    }

    /// After a write of `pixel` at an in-bounds `(x, y)`, the game's canvas holds
    /// `pixel` at offset `y * width + x` and is unchanged everywhere else.
    pub proof fn lemma_write_reflects(
        before: Database,
        after: Database,
        game_id: u128,
        x: nat,
        y: nat,
        pixel: RGBPixel,
    )
        requires
            before.wf(),
            before.has_game(game_id),
            in_bounds(before.game(game_id).width as nat, before.game(game_id).height as nat, x, y),
            after.written(before, game_id, x, y, pixel),
        ensures
            after.game(game_id) == before.game(game_id),
            after.canvas(game_id).len() == before.canvas(game_id).len(),
            after.canvas(game_id)[offset(before.game(game_id).width as nat, x, y) as int] == pixel,
            forall|k: int|
                0 <= k < after.canvas(game_id).len() && k != offset(
                    before.game(game_id).width as nat,
                    x,
                    y,
                ) ==> #[trigger] after.canvas(game_id)[k] == before.canvas(game_id)[k],
    {
        let w = before.game(game_id).width as nat;
        let h = before.game(game_id).height as nat;
        lemma_offset_in_grid(w, h, x, y);
        after.lemma_same_games(before, game_id);
    }

    /// Writing the same pixel twice to the same cell leaves every canvas as
    /// writing it once did.
    pub proof fn lemma_write_idempotent(
        d0: Database,
        d1: Database,
        d2: Database,
        game_id: u128,
        x: nat,
        y: nat,
        pixel: RGBPixel,
    )
        requires
            d0.wf(),
            d0.has_game(game_id),
            in_bounds(d0.game(game_id).width as nat, d0.game(game_id).height as nat, x, y),
            d1.written(d0, game_id, x, y, pixel),
            d2.written(d1, game_id, x, y, pixel),
        ensures
            d2.all_games() == d1.all_games(),
            forall|g: u128| #[trigger] d2.canvas(g) == d1.canvas(g),
    {
        d1.lemma_same_games(d0, game_id);
        let off = offset(d0.game(game_id).width as nat, x, y) as int;
        lemma_offset_in_grid(d0.game(game_id).width as nat, d0.game(game_id).height as nat, x, y);
        d0.lemma_size_fits(game_id);
        let c1 = d0.canvas(game_id).update(off, pixel);
        assert(c1.len() == d1.size_of(game_id));
        assert(d1.canvas(game_id) == c1);
        assert(c1.update(off, pixel) =~= c1);
        assert forall|g: u128| #[trigger] d2.canvas(g) == d1.canvas(g) by {
            d2.lemma_same_games(d1, g);
        }
    }

    /// A write to one game changes no other game: neither its metadata nor its
    /// canvas.
    pub proof fn lemma_write_isolated(
        before: Database,
        after: Database,
        game_id: u128,
        x: nat,
        y: nat,
        pixel: RGBPixel,
        other: u128,
    )
        requires
            after.written(before, game_id, x, y, pixel),
            other != game_id,
        ensures
            after.has_game(other) == before.has_game(other),
            after.game(other) == before.game(other),
            after.canvas(other) == before.canvas(other),
    {
        after.lemma_same_games(before, other);
        assert(after.stored(other) == before.stored(other));
    }

    fn find(&self, id: u128) -> (r: Option<usize>)
        requires
            self.wf(),
        ensures
            match r {
                Some(i) => i < self.games.len() && self.games@[i as int].id == id && self.slot(id)
                    == i && self.has_game(id),
                None => !self.has_game(id),
            },
    {
        let mut i: usize = 0;
        while i < self.games.len()
            invariant
                self.wf(),
                i <= self.games.len(),
                forall|k: int| 0 <= k < i ==> #[trigger] self.games@[k].id != id,
            decreases self.games.len() - i,
        {
            if self.games[i].id == id {
                proof {
                    self.lemma_slot(id, i as int);
                }
                return Some(i);
            }
            i = i + 1;
        }
        None
    }
}

} // verus!
