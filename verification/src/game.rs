//! The board and the game state machine.
//!
//! A game owns a roster of players, a fixed-size board of cells, and a
//! lifecycle state that only ever moves forward: waiting for players, then
//! playing, then finished.  Players are referred to everywhere by their
//! index into the roster; every stored index is kept strictly below the
//! roster length.

use vstd::prelude::*;

verus! {

/// One player's identity within a game: a display name and an opaque
/// authentication token (a capability handed out by the caller; the game
/// never inspects its format).
#[derive(Debug, Clone)]
pub struct Player {
    pub name: String,
    pub cookie: String,
}

/// An index into a game's roster.  A bare numeric handle, dereferenced
/// against the roster of the game that issued it.
#[derive(Debug, Clone, Copy, PartialEq, Eq, Structural)]
pub struct PlayerIdx(pub usize);

/// One cell of the board: whether it has been revealed, and the ordered
/// record of the players who registered a hit here (insertion order is
/// firing order; repeated hits are all kept).
#[derive(Debug, Clone)]
pub struct BoardCell {
    pub uncovered: bool,
    pub hits: Vec<PlayerIdx>,
}

/// A fixed `height x width` grid of cells, created once and never resized.
#[derive(Debug, Clone)]
pub struct Board {
    pub height: i32,
    pub width: i32,
    pub data: Vec<Vec<BoardCell>>,
}

/// Payload of the `Playing` state: whose turn it is next, and the players
/// eliminated so far, in elimination order.
#[derive(Debug, Clone)]
pub struct PlayingState {
    pub next_turn: PlayerIdx,
    pub eliminated_order: Vec<PlayerIdx>,
}

/// Payload of the terminal `Finished` state: the complete elimination
/// sequence, the sole survivor appended last.
#[derive(Debug, Clone)]
pub struct FinishedState {
    pub eliminated_order: Vec<PlayerIdx>,
}

/// The lifecycle of one game.  Transitions only move forward:
/// `WaitingForPlayers` to `Playing` to `Finished`.
#[derive(Debug, Clone)]
pub enum GameState {
    WaitingForPlayers,
    Playing(PlayingState),
    Finished(FinishedState),
}

/// One game session's state: the roster, the board, and the lifecycle
/// state.  The game is the sole mutator of everything it owns.
#[derive(Debug, Clone)]
pub struct Game {
    pub players: Vec<Player>,
    pub board: Board,
    pub state: GameState,
}

/// Every failure a game or board operation can report.  All are local and
/// recoverable; a failed operation leaves the state unchanged.
#[derive(Debug, Clone, Copy, PartialEq, Eq, Structural)]
pub enum GameError {
    /// A board was requested with a non-positive height or width.
    InvalidDimensions,
    /// A coordinate lies outside the board.
    OutOfBounds,
    /// The operation is illegal in the current lifecycle state.
    InvalidState,
    /// A game cannot start with fewer than two players.
    NotEnoughPlayers,
    /// A player fired although it is another player's turn.
    NotYourTurn,
    /// No session with the given identifier exists.
    NotFound,
}

/// What a successful `fire` reports back to the caller.
#[derive(Debug, Clone, Copy, PartialEq, Eq)]
pub struct FireOutcome {
    /// Whether the cell had already been revealed by an earlier shot.
    pub already_revealed: bool,
    /// The player newly appended to the elimination order, if any.
    pub eliminated: Option<PlayerIdx>,
    /// Whether the shot ended the game.
    pub finished: bool,
}

// ------------------------------------------------------------------
// Mathematical models
// ------------------------------------------------------------------

/// Model of a player: name and token as character sequences.
#[verifier::ext_equal]
pub struct PlayerModel {
    pub name: Seq<char>,
    pub cookie: Seq<char>,
}

/// Model of a cell: the revealed flag and the hit record as a sequence of
/// roster indices.
#[verifier::ext_equal]
pub struct CellModel {
    pub uncovered: bool,
    pub hits: Seq<int>,
}

/// Model of a board: its dimensions and its grid of cell models.
#[verifier::ext_equal]
pub struct BoardModel {
    pub height: int,
    pub width: int,
    pub cells: Seq<Seq<CellModel>>,
}

/// Model of the lifecycle state, over plain integers and sequences.
#[verifier::ext_equal]
pub enum StateModel {
    WaitingForPlayers,
    Playing { next_turn: int, eliminated_order: Seq<int> },
    Finished { eliminated_order: Seq<int> },
}

/// Model of a whole game.
#[verifier::ext_equal]
pub struct GameModel {
    pub players: Seq<PlayerModel>,
    pub board: BoardModel,
    pub state: StateModel,
}

/// The roster indices held by a vector of `PlayerIdx`, as integers.
pub open spec fn idx_seq(v: Seq<PlayerIdx>) -> Seq<int> {
    v.map_values(|p: PlayerIdx| p.0 as int)
}

/// The roster index held by an optional `PlayerIdx`, as an integer.
pub open spec fn opt_idx(o: Option<PlayerIdx>) -> Option<int> {
    match o {
        Some(p) => Some(p.0 as int),
        None => None,
    }
}

impl View for Player {
    type V = PlayerModel;

    open spec fn view(&self) -> PlayerModel {
        PlayerModel { name: self.name@, cookie: self.cookie@ }
    }
}

impl View for BoardCell {
    type V = CellModel;

    open spec fn view(&self) -> CellModel {
        CellModel { uncovered: self.uncovered, hits: idx_seq(self.hits@) }
    }
}

impl View for Board {
    type V = BoardModel;

    open spec fn view(&self) -> BoardModel {
        BoardModel {
            height: self.height as int,
            width: self.width as int,
            cells: self.data@.map_values(|row: Vec<BoardCell>| row@.map_values(|c: BoardCell| c@)),
        }
    }
}

impl View for GameState {
    type V = StateModel;

    open spec fn view(&self) -> StateModel {
        match self {
            GameState::WaitingForPlayers => StateModel::WaitingForPlayers,
            GameState::Playing(ps) => StateModel::Playing {
                next_turn: ps.next_turn.0 as int,
                eliminated_order: idx_seq(ps.eliminated_order@),
            },
            GameState::Finished(fs) => StateModel::Finished {
                eliminated_order: idx_seq(fs.eliminated_order@),
            },
        }
    }
}

impl View for Game {
    type V = GameModel;

    open spec fn view(&self) -> GameModel {
        GameModel {
            players: self.players@.map_values(|p: Player| p@),
            board: self.board@,
            state: self.state@,
        }
    }
}

// ------------------------------------------------------------------
// Well-formedness
// ------------------------------------------------------------------

/// All entries of `s` are roster indices for a roster of length `n`.
pub open spec fn valid_idxs(s: Seq<int>, n: int) -> bool {
    forall|k: int| 0 <= k < s.len() ==> 0 <= #[trigger] s[k] < n
}

/// `(row, col)` addresses a cell of a board with these dimensions.
pub open spec fn in_bounds_model(b: BoardModel, row: int, col: int) -> bool {
    0 <= row < b.height && 0 <= col < b.width
}

/// Every hit recorded anywhere in the grid names a roster index below `n`.
pub open spec fn cells_idxs_ok(cells: Seq<Seq<CellModel>>, n: int) -> bool {
    forall|r: int, c: int|
        0 <= r < cells.len() && 0 <= c < cells[r].len() ==> valid_idxs(
            (#[trigger] cells[r][c]).hits,
            n,
        )
}

/// At least two of the `n` roster indices are absent from `elim`:
/// at least two players are still in the game.
pub open spec fn two_alive(elim: Seq<int>, n: int) -> bool {
    exists|i: int, j: int|
        0 <= i < j < n && !(#[trigger] elim.contains(i)) && !(#[trigger] elim.contains(j))
}

/// Position reached from roster index `from` by stepping `k` places
/// forward in roster order, wrapping past the end (`0 <= from < n`,
/// `0 <= k < n`).
pub open spec fn wrap_idx(from: int, k: int, n: int) -> int {
    if from + k < n {
        from + k
    } else {
        from + k - n
    }
}

/// `nt` is the first non-eliminated roster index strictly after `from` in
/// wrapping roster order.
pub open spec fn is_next_alive(elim: Seq<int>, n: int, from: int, nt: int) -> bool {
    exists|k: int|
        1 <= k < n && nt == #[trigger] wrap_idx(from, k, n) && !elim.contains(wrap_idx(from, k, n))
            && (forall|j: int| 1 <= j < k ==> elim.contains(#[trigger] wrap_idx(from, j, n)))
}

/// The lifecycle invariant of a state over a roster of length `n`.
pub open spec fn state_wf(s: StateModel, n: int) -> bool {
    match s {
        StateModel::WaitingForPlayers => true,
        StateModel::Playing { next_turn, eliminated_order } => {
            &&& n >= 2
            &&& 0 <= next_turn < n
            &&& valid_idxs(eliminated_order, n)
            &&& eliminated_order.no_duplicates()
            &&& !eliminated_order.contains(next_turn)
            &&& two_alive(eliminated_order, n)
        },
        StateModel::Finished { eliminated_order } => {
            &&& valid_idxs(eliminated_order, n)
            &&& eliminated_order.no_duplicates()
            &&& eliminated_order.len() <= n
        },
    }
}

/// How far along the lifecycle a state is; transitions never decrease it.
pub open spec fn lifecycle_rank(s: StateModel) -> int {
    match s {
        StateModel::WaitingForPlayers => 0,
        StateModel::Playing { .. } => 1,
        StateModel::Finished { .. } => 2,
    }
}

/// A freshly built board of the given dimensions: every cell unrevealed
/// and without hits.
pub open spec fn fresh_board(b: BoardModel, height: int, width: int) -> bool {
    &&& b.height == height
    &&& b.width == width
    &&& b.cells.len() == height
    &&& forall|r: int| 0 <= r < height ==> (#[trigger] b.cells[r]).len() == width
    &&& forall|r: int, c: int|
        0 <= r < height && 0 <= c < width ==> !(#[trigger] b.cells[r][c]).uncovered
            && b.cells[r][c].hits.len() == 0
}

impl Board {
    /// The grid has exactly the advertised dimensions, both positive.
    pub open spec fn wf(&self) -> bool {
        &&& 0 < self@.height
        &&& 0 < self@.width
        &&& self@.cells.len() == self@.height
        &&& forall|r: int| 0 <= r < self@.cells.len() ==> (#[trigger] self@.cells[r]).len() == self@.width
    }

    /// `(row, col)` addresses a cell of this board.
    pub open spec fn in_bounds(&self, row: int, col: int) -> bool {
        in_bounds_model(self@, row, col)
    }

    /// Every hit recorded anywhere on the board names a roster index below `n`.
    pub open spec fn hit_idxs_ok(&self, n: int) -> bool {
        cells_idxs_ok(self@.cells, n)
    }
}

impl Game {
    /// The game invariant: the board is well formed, every stored roster
    /// index is below the roster length, the elimination order holds no
    /// duplicates, and while playing the player to move is alive and at
    /// least two players are.
    pub open spec fn wf(&self) -> bool {
        &&& self.board.wf()
        &&& self.board.hit_idxs_ok(self@.players.len() as int)
        &&& state_wf(self@.state, self@.players.len() as int)
    }
}

// ------------------------------------------------------------------
// Construction
// ------------------------------------------------------------------

impl BoardCell {
    /// A fresh cell: unrevealed, no hits.
    pub fn new() -> (c: BoardCell)
        ensures
            !c.uncovered,
            c@.hits.len() == 0,
    {
        BoardCell { uncovered: false, hits: Vec::new() }
    }
}

impl Board {
    /// A fresh grid of unmarked, unrevealed cells.  Both dimensions must
    /// be positive; otherwise the board is refused.
    pub fn new(height: i32, width: i32) -> (r: Result<Board, GameError>)
        ensures
            height > 0 && width > 0 ==> (r matches Ok(b) && b.wf() && fresh_board(
                b@,
                height as int,
                width as int,
            )),
            !(height > 0 && width > 0) ==> r == Err::<Board, GameError>(
                GameError::InvalidDimensions,
            ),
    {
        if height <= 0 || width <= 0 {
            return Err(GameError::InvalidDimensions);
        }
        let h = height as usize;
        let w = width as usize;
        let mut data: Vec<Vec<BoardCell>> = Vec::new();
        let mut r: usize = 0;
        while r < h
            invariant
                r <= h,
                data@.len() == r as int,
                forall|i: int| 0 <= i < r as int ==> (#[trigger] data@[i])@.len() == w as int,
                forall|i: int, j: int|
                    0 <= i < r as int && 0 <= j < w as int ==> !(#[trigger] data@[i]@[j]).uncovered
                        && data@[i]@[j].hits@.len() == 0,
            decreases h - r,
        {
            let mut rowv: Vec<BoardCell> = Vec::new();
            let mut c: usize = 0;
            while c < w
                invariant
                    c <= w,
                    rowv@.len() == c as int,
                    forall|j: int|
                        0 <= j < c as int ==> !(#[trigger] rowv@[j]).uncovered
                            && rowv@[j].hits@.len() == 0,
                decreases w - c,
            {
                rowv.push(BoardCell::new());
                c = c + 1;
            }
            data.push(rowv);
            r = r + 1;
        }
        let b = Board { height, width, data };
        proof {
            assert forall|rr: int| 0 <= rr < b@.cells.len() implies (#[trigger] b@.cells[rr]).len()
                == width as int by {
                assert(b@.cells[rr] == b.data@[rr]@.map_values(|cc: BoardCell| cc@));
            }
            assert forall|rr: int, cc: int|
                0 <= rr < height as int && 0 <= cc < width as int implies !(
            #[trigger] b@.cells[rr][cc]).uncovered && b@.cells[rr][cc].hits.len() == 0 by {
                assert(b@.cells[rr][cc] == b.data@[rr]@[cc]@);
                assert(b@.cells[rr][cc].hits =~= idx_seq(b.data@[rr]@[cc].hits@));
            }
        }
        Ok(b)
    }
}

impl Game {
    /// A fresh game in `WaitingForPlayers` over a fresh board of the given
    /// dimensions.  Refused with `InvalidDimensions` unless both are
    /// positive.
    pub fn new(height: i32, width: i32) -> (r: Result<Game, GameError>)
        ensures
            height > 0 && width > 0 ==> (r matches Ok(g) && g.wf() && g@.players.len() == 0
                && g@.state == StateModel::WaitingForPlayers && fresh_board(
                g@.board,
                height as int,
                width as int,
            )),
            !(height > 0 && width > 0) ==> r == Err::<Game, GameError>(
                GameError::InvalidDimensions,
            ),
    {
        let board = match Board::new(height, width) {
            Ok(b) => b,
            Err(e) => {
                return Err(e);
            },
        };
        Ok(Game { players: Vec::new(), board, state: GameState::WaitingForPlayers })
    }
}

// ------------------------------------------------------------------
// Board operations
// ------------------------------------------------------------------

/// The grid after one cell is replaced.
pub open spec fn cells_updated(
    cells: Seq<Seq<CellModel>>,
    row: int,
    col: int,
    cell: CellModel,
) -> Seq<Seq<CellModel>> {
    cells.update(row, cells[row].update(col, cell))
}

/// Bridges the board's model to its representation: the grid of cell
/// models indexes exactly as the nested vectors do.
proof fn lemma_cell_view(b: Board, r: int)
    requires
        0 <= r < b.data@.len(),
    ensures
        b@.cells.len() == b.data@.len(),
        b@.cells[r].len() == b.data@[r]@.len(),
        forall|c: int| 0 <= c < b.data@[r]@.len() ==> b@.cells[r][c] == (#[trigger] b.data@[r]@[c])@,
{
    assert(b@.cells[r] == b.data@[r]@.map_values(|cc: BoardCell| cc@));
}

impl Board {
    /// Whether `(row, col)` addresses a cell of this board.
    pub fn check_bounds(&self, row: usize, col: usize) -> (b: bool)
        requires
            self.wf(),
        ensures
            b == self.in_bounds(row as int, col as int),
    {
        row < self.height as usize && col < self.width as usize
    }

    /// Marks the cell revealed and reports whether it already was.
    fn reveal_at(&mut self, row: usize, col: usize) -> (was: bool)
        requires
            old(self).wf(),
            old(self).in_bounds(row as int, col as int),
        ensures
            final(self).wf(),
            final(self)@.height == old(self)@.height,
            final(self)@.width == old(self)@.width,
            was == old(self)@.cells[row as int][col as int].uncovered,
            final(self)@.cells == cells_updated(
                old(self)@.cells,
                row as int,
                col as int,
                CellModel {
                    uncovered: true,
                    hits: old(self)@.cells[row as int][col as int].hits,
                },
            ),
    {
        proof {
            lemma_cell_view(*self, row as int);
        }
        let mut rowv = self.data.remove(row);
        let mut cell = rowv.remove(col);
        let was = cell.uncovered;
        cell.uncovered = true;
        rowv.insert(col, cell);
        self.data.insert(row, rowv);
        proof {
            let r = row as int;
            let c = col as int;
            assert(self.data@ =~= old(self).data@.update(r, self.data@[r]));
            assert(self.data@[r]@ =~= old(self).data@[r]@.update(c, self.data@[r]@[c]));
            assert(self@.cells =~~= cells_updated(
                old(self)@.cells,
                r,
                c,
                CellModel { uncovered: true, hits: old(self)@.cells[r][c].hits },
            ));
        }
        was
    }

    /// Appends `player` to the cell's hit record.
    fn record_at(&mut self, row: usize, col: usize, player: PlayerIdx)
        requires
            old(self).wf(),
            old(self).in_bounds(row as int, col as int),
        ensures
            final(self).wf(),
            final(self)@.height == old(self)@.height,
            final(self)@.width == old(self)@.width,
            final(self)@.cells == cells_updated(
                old(self)@.cells,
                row as int,
                col as int,
                CellModel {
                    uncovered: old(self)@.cells[row as int][col as int].uncovered,
                    hits: old(self)@.cells[row as int][col as int].hits.push(player.0 as int),
                },
            ),
    {
        proof {
            lemma_cell_view(*self, row as int);
        }
        let mut rowv = self.data.remove(row);
        let mut cell = rowv.remove(col);
        cell.hits.push(player);
        rowv.insert(col, cell);
        self.data.insert(row, rowv);
        proof {
            let r = row as int;
            let c = col as int;
            assert(self.data@ =~= old(self).data@.update(r, self.data@[r]));
            assert(self.data@[r]@ =~= old(self).data@[r]@.update(c, self.data@[r]@[c]));
            assert(idx_seq(self.data@[r]@[c].hits@) =~= old(self)@.cells[r][c].hits.push(
                player.0 as int,
            ));
            assert(self@.cells =~~= cells_updated(
                old(self)@.cells,
                r,
                c,
                CellModel {
                    uncovered: old(self)@.cells[r][c].uncovered,
                    hits: old(self)@.cells[r][c].hits.push(player.0 as int),
                },
            ));
        }
    }

    /// Reveals the cell at `(row, col)`, idempotently, and returns whether
    /// it had already been revealed; everything else on the board is kept.
    /// Out-of-range coordinates are rejected with `OutOfBounds` and the
    /// board is unchanged.
    pub fn reveal_cell(&mut self, row: usize, col: usize) -> (r: Result<bool, GameError>)
        requires
            old(self).wf(),
        ensures
            final(self).wf(),
            old(self).in_bounds(row as int, col as int) ==> (r matches Ok(was)
                && was == old(self)@.cells[row as int][col as int].uncovered
                && final(self)@.height == old(self)@.height
                && final(self)@.width == old(self)@.width
                && final(self)@.cells == cells_updated(
                old(self)@.cells,
                row as int,
                col as int,
                CellModel {
                    uncovered: true,
                    hits: old(self)@.cells[row as int][col as int].hits,
                },
            )),
            !old(self).in_bounds(row as int, col as int) ==> r == Err::<bool, GameError>(
                GameError::OutOfBounds,
            ) && final(self)@ == old(self)@,
    {
        if !self.check_bounds(row, col) {
            return Err(GameError::OutOfBounds);
        }
        Ok(self.reveal_at(row, col))
    }

    /// Appends `player` to the hit record of the cell at `(row, col)`;
    /// nothing is de-duplicated and everything else on the board is kept.
    /// Out-of-range coordinates are rejected with `OutOfBounds` and the
    /// board is unchanged.
    pub fn record_hit(&mut self, row: usize, col: usize, player: PlayerIdx) -> (r: Result<
        (),
        GameError,
    >)
        requires
            old(self).wf(),
        ensures
            final(self).wf(),
            old(self).in_bounds(row as int, col as int) ==> r == Ok::<(), GameError>(())
                && final(self)@.height == old(self)@.height
                && final(self)@.width == old(self)@.width
                && final(self)@.cells == cells_updated(
                old(self)@.cells,
                row as int,
                col as int,
                CellModel {
                    uncovered: old(self)@.cells[row as int][col as int].uncovered,
                    hits: old(self)@.cells[row as int][col as int].hits.push(player.0 as int),
                },
            ),
            !old(self).in_bounds(row as int, col as int) ==> r == Err::<(), GameError>(
                GameError::OutOfBounds,
            ) && final(self)@ == old(self)@,
    {
        if !self.check_bounds(row, col) {
            return Err(GameError::OutOfBounds);
        }
        self.record_at(row, col, player);
        Ok(())
    }

    /// Read-only lookup of the ordered hit record at `(row, col)`;
    /// rejected with `OutOfBounds` for out-of-range coordinates.
    pub fn cell_hits(&self, row: usize, col: usize) -> (r: Result<&Vec<PlayerIdx>, GameError>)
        requires
            self.wf(),
        ensures
            self.in_bounds(row as int, col as int) ==> (r matches Ok(h) && idx_seq(h@)
                == self@.cells[row as int][col as int].hits),
            !self.in_bounds(row as int, col as int) ==> r == Err::<&Vec<PlayerIdx>, GameError>(
                GameError::OutOfBounds,
            ),
    {
        if !self.check_bounds(row, col) {
            return Err(GameError::OutOfBounds);
        }
        proof {
            lemma_cell_view(*self, row as int);
        }
        Ok(&self.data[row][col].hits)
    }
}

// ------------------------------------------------------------------
// Roster and lifecycle mutation
// ------------------------------------------------------------------

/// Hit records stay valid when the roster grows.
proof fn lemma_hit_idxs_ok_grow(b: Board, n1: int, n2: int)
    requires
        b.hit_idxs_ok(n1),
        n1 <= n2,
    ensures
        b.hit_idxs_ok(n2),
{
    assert forall|r: int, c: int|
        0 <= r < b@.cells.len() && 0 <= c < b@.cells[r].len() implies valid_idxs(
        (#[trigger] b@.cells[r][c]).hits,
        n2,
    ) by {
        assert(valid_idxs(b@.cells[r][c].hits, n1));
        assert forall|k: int| 0 <= k < b@.cells[r][c].hits.len() implies 0 <= #[trigger] b@.cells[r][c].hits[k]
            < n2 by {
            assert(0 <= b@.cells[r][c].hits[k] < n1);
        }
    }
}

impl Game {
    /// Appends a new player to the roster.  Legal only while waiting for
    /// players; in any other state the roster is frozen and the call is
    /// rejected with `InvalidState`, leaving the game unchanged.
    pub fn add_player(&mut self, name: &str, cookie: &str) -> (r: Result<(), GameError>)
        requires
            old(self).wf(),
        ensures
            final(self).wf(),
            lifecycle_rank(old(self)@.state) <= lifecycle_rank(final(self)@.state),
            old(self)@.state is WaitingForPlayers ==> r == Ok::<(), GameError>(())
                && final(self)@.players == old(self)@.players.push(
                PlayerModel { name: name@, cookie: cookie@ },
            ) && final(self)@.board == old(self)@.board && final(self)@.state == old(self)@.state,
            !(old(self)@.state is WaitingForPlayers) ==> r == Err::<(), GameError>(
                GameError::InvalidState,
            ) && final(self)@ == old(self)@,
    {
        let waiting = matches!(&self.state, GameState::WaitingForPlayers);
        if !waiting {
            return Err(GameError::InvalidState);
        }
        let p = Player { name: name.to_owned(), cookie: cookie.to_owned() };
        self.players.push(p);
        proof {
            let n = self@.players.len() as int;
            lemma_hit_idxs_ok_grow(self.board, n - 1, n);
            assert(self@.players =~= old(self)@.players.push(
                PlayerModel { name: name@, cookie: cookie@ },
            ));
        }
        Ok(())
    }

    /// Resolves an authentication token to the player holding it: the
    /// lowest roster index whose token matches, or `None` when no player
    /// holds the token.  The token is opaque; it is compared verbatim.
    pub fn player_by_cookie(&self, cookie: &str) -> (r: Option<PlayerIdx>)
        ensures
            match r {
                Some(p) => (p.0 as int) < self@.players.len() && self@.players[p.0 as int].cookie
                    == cookie@ && (forall|k: int|
                    0 <= k < p.0 as int ==> self@.players[k].cookie != cookie@),
                None => forall|k: int|
                    0 <= k < self@.players.len() ==> self@.players[k].cookie != cookie@,
            },
    {
        let cookie_s = cookie.to_owned();
        let mut i: usize = 0;
        while i < self.players.len()
            invariant
                i <= self.players@.len(),
                cookie_s@ == cookie@,
                forall|k: int| 0 <= k < i as int ==> self@.players[k].cookie != cookie@,
            decreases self.players@.len() - i,
        {
            proof {
                assert(self@.players[i as int] == self.players@[i as int]@);
            }
            if self.players[i].cookie == cookie_s {
                return Some(PlayerIdx(i));
            }
            i = i + 1;
        }
        None
    }

    /// Starts the game: legal only while waiting for players and with at
    /// least two of them; the state becomes `Playing` with player `0` to
    /// move and nobody eliminated.  Rejected with `NotEnoughPlayers` or
    /// `InvalidState` otherwise, leaving the game unchanged.
    pub fn start_game(&mut self) -> (r: Result<(), GameError>)
        requires
            old(self).wf(),
        ensures
            final(self).wf(),
            lifecycle_rank(old(self)@.state) <= lifecycle_rank(final(self)@.state),
            old(self)@.state is WaitingForPlayers && old(self)@.players.len() >= 2 ==> r == Ok::<
                (),
                GameError,
            >(()) && final(self)@.state == (StateModel::Playing {
                next_turn: 0,
                eliminated_order: Seq::empty(),
            }) && final(self)@.players == old(self)@.players && final(self)@.board
                == old(self)@.board,
            old(self)@.state is WaitingForPlayers && old(self)@.players.len() < 2 ==> r == Err::<
                (),
                GameError,
            >(GameError::NotEnoughPlayers) && final(self)@ == old(self)@,
            !(old(self)@.state is WaitingForPlayers) ==> r == Err::<(), GameError>(
                GameError::InvalidState,
            ) && final(self)@ == old(self)@,
    {
        let waiting = matches!(&self.state, GameState::WaitingForPlayers);
        if !waiting {
            return Err(GameError::InvalidState);
        }
        if self.players.len() < 2 {
            return Err(GameError::NotEnoughPlayers);
        }
        self.state = GameState::Playing(
            PlayingState { next_turn: PlayerIdx(0), eliminated_order: Vec::new() },
        );
        proof {
            let n = self@.players.len() as int;
            let e = Seq::<int>::empty();
            assert(self@.state matches StateModel::Playing { next_turn, eliminated_order }
                && next_turn == 0 && eliminated_order =~= e);
            assert(!e.contains(0int) && !e.contains(1int));
            assert(two_alive(e, n));
            assert(self@.state =~= (StateModel::Playing {
                next_turn: 0,
                eliminated_order: Seq::empty(),
            }));
        }
        Ok(())
    }
}

// ------------------------------------------------------------------
// Firing
// ------------------------------------------------------------------

/// True iff some entry of `v` holds roster index `x`.
fn contains_idx(v: &Vec<PlayerIdx>, x: usize) -> (b: bool)
    ensures
        b == idx_seq(v@).contains(x as int),
{
    let mut i: usize = 0;
    while i < v.len()
        invariant
            i <= v@.len(),
            forall|k: int| 0 <= k < i as int ==> idx_seq(v@)[k] != x as int,
        decreases v@.len() - i,
    {
        if v[i].0 == x {
            proof {
                assert(idx_seq(v@)[i as int] == x as int);
            }
            return true;
        }
        i = i + 1;
    }
    proof {
        if idx_seq(v@).contains(x as int) {
            let k = choose|k: int| 0 <= k < idx_seq(v@).len() && idx_seq(v@)[k] == x as int;
            assert(idx_seq(v@)[k] != x as int);
        }
    }
    false
}

/// An element-wise copy of a vector of roster indices.
fn copy_idxs(v: &Vec<PlayerIdx>) -> (r: Vec<PlayerIdx>)
    ensures
        r@ == v@,
{
    let mut r: Vec<PlayerIdx> = Vec::new();
    let mut i: usize = 0;
    while i < v.len()
        invariant
            i <= v@.len(),
            r@ == v@.subrange(0, i as int),
        decreases v@.len() - i,
    {
        r.push(v[i]);
        proof {
            assert(r@ =~= v@.subrange(0, i as int + 1));
        }
        i = i + 1;
    }
    proof {
        assert(r@ =~= v@);
    }
    r
}

/// Containment in a pushed sequence is containment before, or equality
/// with the pushed value.
proof fn lemma_contains_push(s: Seq<int>, v: int, x: int)
    requires
        s.push(v).contains(x),
    ensures
        s.contains(x) || x == v,
{
    let i = choose|i: int| 0 <= i < s.push(v).len() && s.push(v)[i] == x;
    if i < s.len() {
        assert(s[i] == x);
    }
}

/// A duplicate-free sequence of roster indices below `n` has at most `n`
/// entries.
proof fn lemma_unique_idxs_len(s: Seq<int>, n: int)
    requires
        s.no_duplicates(),
        valid_idxs(s, n),
        n >= 0,
    ensures
        s.len() <= n,
{
    s.unique_seq_to_set();
    vstd::set_lib::lemma_int_range(0, n);
    assert(s.to_set().subset_of(vstd::set_lib::set_int_range(0, n)));
    vstd::set_lib::lemma_len_subset(s.to_set(), vstd::set_lib::set_int_range(0, n));
}

/// The player a shot newly eliminates: the externally supplied verdict,
/// if a hit was recorded and the verdict names a live roster index.
pub open spec fn applied_elim(elim0: Seq<int>, n: int, occupied: bool, verdict: Option<int>) -> Option<int> {
    match verdict {
        Some(p) => if occupied && 0 <= p < n && !elim0.contains(p) {
            Some(p)
        } else {
            None
        },
        None => None,
    }
}

/// The elimination order after the verdict is applied.
pub open spec fn elim_after(elim0: Seq<int>, n: int, occupied: bool, verdict: Option<int>) -> Seq<int> {
    match applied_elim(elim0, n, occupied, verdict) {
        Some(p) => elim0.push(p),
        None => elim0,
    }
}

/// The grid after a shot at `(row, col)`: the cell is revealed, and the
/// firing player is appended to its hit record when the cell was occupied.
pub open spec fn cells_after_fire(
    cells: Seq<Seq<CellModel>>,
    row: int,
    col: int,
    acting: int,
    occupied: bool,
) -> Seq<Seq<CellModel>> {
    let c0 = cells[row][col];
    cells_updated(
        cells,
        row,
        col,
        CellModel { uncovered: true, hits: if occupied { c0.hits.push(acting) } else { c0.hits } },
    )
}

/// What a successful shot does: the cell is revealed, the hit recorded
/// when the cell was occupied, the elimination verdict applied, and the
/// turn passed to the next live player in wrapping roster order — or,
/// when only one player stays alive, that player is appended to the
/// elimination order too and the game is finished.
pub open spec fn fire_ok_post(
    g0: GameModel,
    g1: GameModel,
    acting: int,
    row: int,
    col: int,
    occupied: bool,
    verdict: Option<int>,
    out: FireOutcome,
) -> bool {
    let n = g0.players.len() as int;
    let elim0 = g0.state->Playing_eliminated_order;
    let elim1 = elim_after(elim0, n, occupied, verdict);
    &&& g1.players == g0.players
    &&& g1.board.height == g0.board.height
    &&& g1.board.width == g0.board.width
    &&& g1.board.cells == cells_after_fire(g0.board.cells, row, col, acting, occupied)
    &&& out.already_revealed == g0.board.cells[row][col].uncovered
    &&& opt_idx(out.eliminated) == applied_elim(elim0, n, occupied, verdict)
    &&& out.finished == !two_alive(elim1, n)
    &&& two_alive(elim1, n) ==> (g1.state matches StateModel::Playing {
        next_turn,
        eliminated_order,
    } && eliminated_order == elim1 && is_next_alive(elim1, n, acting, next_turn))
    &&& !two_alive(elim1, n) ==> (exists|s: int|
        0 <= s < n && !elim1.contains(s) && g1.state == (StateModel::Finished {
            eliminated_order: elim1.push(s),
        }))
}

/// Every hit record stays a valid roster index after a shot.
proof fn lemma_idxs_ok_after_fire(
    cells: Seq<Seq<CellModel>>,
    row: int,
    col: int,
    acting: int,
    occupied: bool,
    n: int,
)
    requires
        cells_idxs_ok(cells, n),
        0 <= row < cells.len(),
        0 <= col < cells[row].len(),
        0 <= acting < n,
    ensures
        cells_idxs_ok(cells_after_fire(cells, row, col, acting, occupied), n),
{
    let cells1 = cells_after_fire(cells, row, col, acting, occupied);
    assert forall|r: int, c: int|
        0 <= r < cells1.len() && 0 <= c < cells1[r].len() implies valid_idxs(
        (#[trigger] cells1[r][c]).hits,
        n,
    ) by {
        assert(valid_idxs(cells[r][c].hits, n));
        if r == row && c == col && occupied {
            let h0 = cells[row][col].hits;
            assert forall|k: int| 0 <= k < h0.push(acting).len() implies 0 <= #[trigger] h0.push(
                acting,
            )[k] < n by {
                if k < h0.len() {
                    assert(0 <= h0[k] < n);
                }
            }
        }
    }
}

impl Game {
    /// One shot by `acting` at `(row, col)`.
    ///
    /// Legal only while playing, on the acting player's own turn, and
    /// inside the board; every failure leaves the game unchanged.  On
    /// success the cell is revealed (idempotently: firing at a revealed
    /// cell is legal), a hit is recorded for the acting player unless the
    /// cell held no opponent's asset (`occupied` comes from the
    /// externally seeded placement), and the externally supplied
    /// elimination `verdict` is applied when it names a live player —
    /// self-elimination included.  Then the turn passes to the next
    /// non-eliminated player in ascending wrapping roster order; when
    /// exactly one player stays alive, that survivor is appended to the
    /// elimination order as well and the game is finished.
    pub fn fire(
        &mut self,
        acting: PlayerIdx,
        row: usize,
        col: usize,
        occupied: bool,
        verdict: Option<PlayerIdx>,
    ) -> (r: Result<FireOutcome, GameError>)
        requires
            old(self).wf(),
        ensures
            final(self).wf(),
            lifecycle_rank(old(self)@.state) <= lifecycle_rank(final(self)@.state),
            !(old(self)@.state is Playing) ==> r == Err::<FireOutcome, GameError>(
                GameError::InvalidState,
            ) && final(self)@ == old(self)@,
            old(self)@.state is Playing && acting.0 as int != old(
                self,
            )@.state->Playing_next_turn ==> r == Err::<FireOutcome, GameError>(
                GameError::NotYourTurn,
            ) && final(self)@ == old(self)@,
            old(self)@.state is Playing && acting.0 as int == old(self)@.state->Playing_next_turn
                && !old(self).board.in_bounds(row as int, col as int) ==> r == Err::<
                FireOutcome,
                GameError,
            >(GameError::OutOfBounds) && final(self)@ == old(self)@,
            old(self)@.state is Playing && acting.0 as int == old(self)@.state->Playing_next_turn
                && old(self).board.in_bounds(row as int, col as int) ==> (r matches Ok(out)
                && fire_ok_post(
                old(self)@,
                final(self)@,
                acting.0 as int,
                row as int,
                col as int,
                occupied,
                opt_idx(verdict),
                out,
            )),
    {
        let n = self.players.len();
        let (next, mut elim): (usize, Vec<PlayerIdx>) = match &self.state {
            GameState::Playing(ps) => (ps.next_turn.0, copy_idxs(&ps.eliminated_order)),
            _ => {
                return Err(GameError::InvalidState);
            },
        };
        if acting.0 != next {
            return Err(GameError::NotYourTurn);
        }
        if !self.board.check_bounds(row, col) {
            return Err(GameError::OutOfBounds);
        }
        let ghost g0 = self@;
        let ghost n_i = n as int;
        let ghost elim0 = idx_seq(elim@);
        let ghost a_i = acting.0 as int;
        proof {
            assert(elim0 == g0.state->Playing_eliminated_order);
            assert(0 <= a_i < n_i);
            assert(two_alive(elim0, n_i));
        }

        // (a) reveal, (b) record the hit when the cell is occupied
        let already = self.board.reveal_at(row, col);
        if occupied {
            self.board.record_at(row, col, acting);
        }
        proof {
            let r_i = row as int;
            let c_i = col as int;
            let h0 = g0.board.cells[r_i][c_i].hits;
            if occupied {
                let cells1 = cells_updated(
                    g0.board.cells,
                    r_i,
                    c_i,
                    CellModel { uncovered: true, hits: h0 },
                );
                assert(self.board@.cells[r_i] =~= g0.board.cells[r_i].update(
                    c_i,
                    CellModel { uncovered: true, hits: h0.push(a_i) },
                ));
                assert(self.board@.cells =~~= cells_after_fire(
                    g0.board.cells,
                    r_i,
                    c_i,
                    a_i,
                    occupied,
                ));
            } else {
                assert(self.board@.cells =~~= cells_after_fire(
                    g0.board.cells,
                    r_i,
                    c_i,
                    a_i,
                    occupied,
                ));
            }
            lemma_idxs_ok_after_fire(g0.board.cells, r_i, c_i, a_i, occupied, n_i);
        }

        // (c) apply the externally supplied elimination verdict
        let mut applied: Option<PlayerIdx> = None;
        if occupied {
            if let Some(p) = verdict {
                if p.0 < n && !contains_idx(&elim, p.0) {
                    elim.push(p);
                    applied = Some(p);
                }
            }
        }
        let ghost elim1 = idx_seq(elim@);
        proof {
            assert(elim1 =~= elim_after(elim0, n_i, occupied, opt_idx(verdict)));
            assert(opt_idx(applied) == applied_elim(elim0, n_i, occupied, opt_idx(verdict)));
            assert(valid_idxs(elim1, n_i)) by {
                match applied_elim(elim0, n_i, occupied, opt_idx(verdict)) {
                    Some(p) => {
                        assert forall|k: int| 0 <= k < elim1.len() implies 0 <= #[trigger] elim1[k]
                            < n_i by {
                            if k < elim0.len() {
                                assert(0 <= elim0[k] < n_i);
                            }
                        }
                    },
                    None => {},
                }
            }
            assert(elim1.no_duplicates()) by {
                match applied_elim(elim0, n_i, occupied, opt_idx(verdict)) {
                    Some(p) => {
                        assert forall|i: int, j: int|
                            0 <= i < elim1.len() && 0 <= j < elim1.len() && i != j implies elim1[i]
                            != elim1[j] by {
                            if i < elim0.len() && j < elim0.len() {
                                assert(elim0[i] != elim0[j]);
                            } else if i < elim0.len() {
                                assert(elim1[j] == p && !elim0.contains(p));
                                assert(elim0[i] != p);
                            } else {
                                assert(elim1[i] == p && !elim0.contains(p));
                                assert(elim0[j] != p);
                            }
                        }
                    },
                    None => {},
                }
            }
        }

        // (d) count the players still alive (two are as many as matter),
        // remembering the sole survivor when there is only one
        let mut count: usize = 0;
        let mut survivor: usize = 0;
        let mut j: usize = 0;
        while j < n
            invariant
                j <= n,
                idx_seq(elim@) == elim1,
                count <= 2,
                count == 0 ==> forall|i: int| 0 <= i < j as int ==> elim1.contains(i),
                count == 1 ==> (survivor as int) < j as int && !elim1.contains(survivor as int)
                    && (forall|i: int|
                    0 <= i < j as int && i != survivor as int ==> elim1.contains(i)),
                count == 2 ==> exists|i1: int, i2: int|
                    0 <= i1 < i2 < j as int && !(#[trigger] elim1.contains(i1)) && !(
                    #[trigger] elim1.contains(i2)),
            decreases n - j,
        {
            if !contains_idx(&elim, j) {
                if count == 0 {
                    survivor = j;
                    count = 1;
                } else {
                    proof {
                        if count == 1 {
                            assert(!elim1.contains(survivor as int) && !elim1.contains(j as int)
                                && survivor < j);
                        }
                    }
                    count = 2;
                }
            }
            j = j + 1;
        }

        if count <= 1 {
            // at most one player is left alive: the shot finishes the game
            proof {
                assert(count == 1) by {
                    if count == 0 {
                        let (ia, ja) = choose|ia: int, ja: int|
                            0 <= ia < ja < n_i && !(#[trigger] elim0.contains(ia)) && !(
                            #[trigger] elim0.contains(ja));
                        assert(elim1.contains(ia) && elim1.contains(ja));
                        match applied_elim(elim0, n_i, occupied, opt_idx(verdict)) {
                            Some(p) => {
                                lemma_contains_push(elim0, p, ia);
                                lemma_contains_push(elim0, p, ja);
                            },
                            None => {},
                        }
                    }
                }
                assert(!two_alive(elim1, n_i)) by {
                    if two_alive(elim1, n_i) {
                        let (ia, ja) = choose|ia: int, ja: int|
                            0 <= ia < ja < n_i && !(#[trigger] elim1.contains(ia)) && !(
                            #[trigger] elim1.contains(ja));
                        assert(ia == survivor as int && ja == survivor as int);
                    }
                }
            }
            let ghost s_i = survivor as int;
            elim.push(PlayerIdx(survivor));
            proof {
                assert(idx_seq(elim@) =~= elim1.push(s_i));
                assert(elim1.push(s_i).no_duplicates()) by {
                    assert forall|i: int, jj: int|
                        0 <= i < elim1.push(s_i).len() && 0 <= jj < elim1.push(s_i).len() && i
                            != jj implies elim1.push(s_i)[i] != elim1.push(s_i)[jj] by {
                        if i < elim1.len() && jj < elim1.len() {
                            assert(elim1[i] != elim1[jj]);
                        } else if i < elim1.len() {
                            assert(elim1.push(s_i)[jj] == s_i && !elim1.contains(s_i));
                            assert(elim1[i] != s_i);
                        } else {
                            assert(elim1.push(s_i)[i] == s_i && !elim1.contains(s_i));
                            assert(elim1[jj] != s_i);
                        }
                    }
                }
                lemma_unique_idxs_len(elim1.push(s_i), n_i);
            }
            self.state = GameState::Finished(FinishedState { eliminated_order: elim });
            proof {
                assert(self@.state == (StateModel::Finished {
                    eliminated_order: elim1.push(s_i),
                }));
            }
            Ok(FireOutcome { already_revealed: already, eliminated: applied, finished: true })
        } else {
            // at least two players stay alive: pass the turn to the next
            // live player after the acting one, in wrapping roster order
            proof {
                assert(two_alive(elim1, n_i));
            }
            let mut k: usize = 1;
            let mut nt: usize = 0;
            let mut found = false;
            while k < n && !found
                invariant
                    1 <= k <= n,
                    0 <= acting.0 < n,
                    a_i == acting.0 as int,
                    n_i == n as int,
                    idx_seq(elim@) == elim1,
                    !found ==> forall|j2: int|
                        1 <= j2 < k as int ==> elim1.contains(
                            #[trigger] wrap_idx(a_i, j2, n_i),
                        ),
                    found ==> 1 <= k < n && nt as int == wrap_idx(a_i, k as int, n_i)
                        && !elim1.contains(nt as int) && forall|j2: int|
                        1 <= j2 < k as int ==> elim1.contains(#[trigger] wrap_idx(a_i, j2, n_i)),
                decreases n - k, (if found { 0int } else { 1int }),
            {
                let idx = if k < n - acting.0 {
                    acting.0 + k
                } else {
                    k - (n - acting.0)
                };
                proof {
                    assert(idx as int == wrap_idx(a_i, k as int, n_i));
                }
                if !contains_idx(&elim, idx) {
                    nt = idx;
                    found = true;
                } else {
                    k = k + 1;
                }
            }
            proof {
                assert(found) by {
                    if !found {
                        let (ia, ja) = choose|ia: int, ja: int|
                            0 <= ia < ja < n_i && !(#[trigger] elim1.contains(ia)) && !(
                            #[trigger] elim1.contains(ja));
                        let alive = if ia != a_i {
                            ia
                        } else {
                            ja
                        };
                        assert(!elim1.contains(alive) && alive != a_i && 0 <= alive < n_i);
                        let kk = if alive > a_i {
                            alive - a_i
                        } else {
                            alive + n_i - a_i
                        };
                        assert(1 <= kk < n_i);
                        assert(wrap_idx(a_i, kk, n_i) == alive);
                        assert(elim1.contains(wrap_idx(a_i, kk, n_i)));
                    }
                }
                assert(is_next_alive(elim1, n_i, a_i, nt as int));
            }
            self.state = GameState::Playing(
                PlayingState { next_turn: PlayerIdx(nt), eliminated_order: elim },
            );
            proof {
                assert(self@.state == (StateModel::Playing {
                    next_turn: nt as int,
                    eliminated_order: elim1,
                }));
            }
            Ok(FireOutcome { already_revealed: already, eliminated: applied, finished: false })
        }
    }
}

} // verus!
