use vstd::prelude::*;
use vstd::string::*;

verus! {

/// One of the two players.
#[derive(PartialEq, Eq, Structural, Debug, Copy, Clone)]
pub enum Player {
    A,
    B,
}

/// The label a player is written with: its own tag.
pub open spec fn player_text(p: Player) -> Seq<char> {
    match p {
        Player::A => seq!['A'],
        Player::B => seq!['B'],
    }
}

impl Player {
    /// Renders the player as its one-letter label.
    pub fn to_string(&self) -> (r: String)
        ensures
            r@ == player_text(*self),
    {
        proof {
            reveal_strlit("A");
            reveal_strlit("B");
        }
        match self {
            Player::A => String::from_str("A"),
            Player::B => String::from_str("B"),
        }
    }
}

/// A square of the board: free, or held by a player.
#[derive(PartialEq, Eq, Structural, Debug, Copy, Clone)]
pub enum Cell {
    Untaken,
    Taken(Player),
}

/// A cell in brackets: `[ ]` when free, the holder's label inside when taken.
pub open spec fn cell_text(c: Cell) -> Seq<char> {
    match c {
        Cell::Untaken => seq!['[', ' ', ']'],
        Cell::Taken(p) => seq!['['] + player_text(p) + seq![']'],
    }
}

impl Cell {
    /// Renders the cell in brackets.
    pub fn to_string(&self) -> (r: String)
        ensures
            r@ == cell_text(*self),
    {
        proof {
            reveal_strlit("[ ]");
            reveal_strlit("[");
            reveal_strlit("]");
        }
        match self {
            Cell::Untaken => String::from_str("[ ]"),
            Cell::Taken(p) => {
                let mut r = String::from_str("[");
                let label = p.to_string();
                r.append(label.as_str());
                r.append("]");
                r
            },
        }
    }
}

/// The board: nine cells in row-major order, three rows of three.
#[derive(PartialEq, Eq, Debug, Copy, Clone)]
pub struct Game {
    pub board: [Cell; 9],
}

impl View for Game {
    type V = Seq<Cell>;

    open spec fn view(&self) -> Seq<Cell> {
        self.board@
    }
}

/// The eight straight lines of the board, as index triples, in the order
/// they are examined: three rows, three columns, then the two diagonals.
pub open spec fn winning_lines() -> Seq<(usize, usize, usize)> {
    seq![(0, 1, 2), (3, 4, 5), (6, 7, 8), (0, 3, 6), (1, 4, 7), (2, 5, 8), (0, 4, 8), (6, 4, 2)]
}

/// Whether player `p` holds all three cells of line `l` on board `b`.
pub open spec fn holds_line(b: Seq<Cell>, l: (usize, usize, usize), p: Player) -> bool {
    &&& b[l.0 as int] == Cell::Taken(p)
    &&& b[l.1 as int] == Cell::Taken(p)
    &&& b[l.2 as int] == Cell::Taken(p)
}

/// The player that holds all of line `l`, if any.
pub open spec fn line_owner(b: Seq<Cell>, l: (usize, usize, usize)) -> Option<Player> {
    match (b[l.0 as int], b[l.1 as int], b[l.2 as int]) {
        (Cell::Taken(x), Cell::Taken(y), Cell::Taken(z)) => if x == y && y == z {
            Some(x)
        } else {
            None
        },
        _ => None,
    }
}

/// The owner of the first fully held line among those from position `i` of
/// `winning_lines()` on.
pub open spec fn first_owner_from(b: Seq<Cell>, i: nat) -> Option<Player>
    decreases 8 - i,
{
    if i >= 8 {
        None
    } else {
        match line_owner(b, winning_lines()[i as int]) {
            Some(p) => Some(p),
            None => first_owner_from(b, i + 1),
        }
    }
}

/// The winner of board `b`: the owner of the first fully held line.
pub open spec fn winner_of(b: Seq<Cell>) -> Option<Player> {
    first_owner_from(b, 0)
}

/// Rendering of the row that starts at index `k`: three cells, space-separated.
pub open spec fn row_text(b: Seq<Cell>, k: int) -> Seq<char> {
    cell_text(b[k]) + seq![' '] + cell_text(b[k + 1]) + seq![' '] + cell_text(b[k + 2])
}

/// Rendering of a board: its three rows joined by line breaks.
pub open spec fn board_text(b: Seq<Cell>) -> Seq<char> {
    row_text(b, 0) + seq!['\n'] + row_text(b, 3) + seq!['\n'] + row_text(b, 6)
}

/// A line has owner `p` exactly when `p` holds all three of its cells.
proof fn lemma_line_owner_holds(b: Seq<Cell>, l: (usize, usize, usize), p: Player)
    ensures
        line_owner(b, l) == Some(p) <==> holds_line(b, l, p),
{
}

/// From position `i` on, there is an owner exactly when some line is fully
/// held, and the owner found holds its line.
proof fn lemma_first_owner_from(b: Seq<Cell>, i: nat)
    requires
        i <= 8,
    ensures
        first_owner_from(b, i) is None <==> forall|j: int, p: Player|
            i <= j < 8 ==> !#[trigger] holds_line(b, winning_lines()[j], p),
        first_owner_from(b, i) matches Some(p) ==> exists|j: int|
            i <= j < 8 && #[trigger] holds_line(b, winning_lines()[j], p),
    decreases 8 - i,
{
    if i < 8 {
        lemma_first_owner_from(b, i + 1);
        let l = winning_lines()[i as int];
        lemma_line_owner_holds(b, l, Player::A);
        lemma_line_owner_holds(b, l, Player::B);
        if let Some(p) = line_owner(b, l) {
            assert(holds_line(b, winning_lines()[i as int], p));
        }
    }
}

impl Game {
    /// The sample board: player A on cells 2 and 8, player B on cell 5, the
    /// rest free. Despite its name this is not an empty board; the name is
    /// kept for existing callers, and an empty board is written as a literal.
    pub fn new() -> (g: Game)
        ensures
            g@ == seq![
                Cell::Untaken, Cell::Untaken, Cell::Taken(Player::A),
                Cell::Untaken, Cell::Untaken, Cell::Taken(Player::B),
                Cell::Untaken, Cell::Untaken, Cell::Taken(Player::A),
            ],
    {
        let g = Game {
            board: [
                Cell::Untaken, Cell::Untaken, Cell::Taken(Player::A),
                Cell::Untaken, Cell::Untaken, Cell::Taken(Player::B),
                Cell::Untaken, Cell::Untaken, Cell::Taken(Player::A),
            ],
        };
        assert(g@ =~= seq![
            Cell::Untaken, Cell::Untaken, Cell::Taken(Player::A),
            Cell::Untaken, Cell::Untaken, Cell::Taken(Player::B),
            Cell::Untaken, Cell::Untaken, Cell::Taken(Player::A),
        ]);
        g
    }

    /// The player that holds a whole line, checking rows, then columns, then
    /// diagonals, and answering with the first one found; `None` when no line
    /// is held by one player.
    pub fn winner(self) -> (r: Option<Player>)
        ensures
            r == winner_of(self@),
            r is None <==> forall|j: int, p: Player|
                0 <= j < 8 ==> !#[trigger] holds_line(self@, winning_lines()[j], p),
            r matches Some(p) ==> exists|j: int|
                0 <= j < 8 && #[trigger] holds_line(self@, winning_lines()[j], p),
    {
        let board = self.board;
        let winning_patterns: [(usize, usize, usize); 8] = [
            (0, 1, 2), (3, 4, 5), (6, 7, 8),
            (0, 3, 6), (1, 4, 7), (2, 5, 8),
            (0, 4, 8), (6, 4, 2),
        ];
        assert(winning_patterns@ =~= winning_lines());
        let mut i: usize = 0;
        while i < 8
            invariant
                i <= 8,
                board@ == self@,
                winning_patterns@ == winning_lines(),
                first_owner_from(self@, i as nat) == winner_of(self@),
            decreases 8 - i,
        {
            let (x, y, z) = winning_patterns[i];
            match (&board[x], &board[y], &board[z]) {
                (Cell::Taken(xx), Cell::Taken(yy), Cell::Taken(zz)) => {
                    if *xx == *yy && *yy == *zz {
                        proof {
                            lemma_first_owner_from(self@, 0);
                        }
                        return Some(*xx);
                    }
                },
                _ => {},
            }
            i = i + 1;
        }
        proof {
            lemma_first_owner_from(self@, 0);
        }
        None
    }

    /// Renders the row that starts at cell `k`.
    fn row_to_string(&self, k: usize) -> (r: String)
        requires
            k <= 6,
        ensures
            r@ == row_text(self@, k as int),
    {
        proof {
            reveal_strlit(" ");
        }
        let mut r = self.board[k].to_string();
        let c1 = self.board[k + 1].to_string();
        let c2 = self.board[k + 2].to_string();
        r.append(" ");
        r.append(c1.as_str());
        r.append(" ");
        r.append(c2.as_str());
        r
    }

    /// Renders the board as three lines of three space-separated cells.
    pub fn to_string(&self) -> (r: String)
        ensures
            r@ == board_text(self@),
    {
        proof {
            reveal_strlit("\n");
        }
        let mut r = self.row_to_string(0);
        let middle = self.row_to_string(3);
        let bottom = self.row_to_string(6);
        r.append("\n");
        r.append(middle.as_str());
        r.append("\n");
        r.append(bottom.as_str());
        r
    }
}

/// When one player fully holds some line and no line is fully held by the
/// other player, that player is the winner.
pub proof fn lemma_sole_line_owner_wins(g: Game, i: int, p: Player)
    requires
        0 <= i < 8,
        holds_line(g@, winning_lines()[i], p),
        forall|j: int, q: Player|
            0 <= j < 8 && #[trigger] holds_line(g@, winning_lines()[j], q) ==> q == p,
    ensures
        winner_of(g@) == Some(p),
{
    lemma_first_owner_from(g@, 0);
    if let Some(q) = winner_of(g@) {
        let j = choose|j: int| 0 <= j < 8 && #[trigger] holds_line(g@, winning_lines()[j], q);
        assert(q == p);
    } else {
        assert(!holds_line(g@, winning_lines()[i], p));
    }
}

/// Asking for the winner of the same board twice gives the same answer.
pub proof fn lemma_winner_repeatable(g1: Game, g2: Game)
    requires
        g1 == g2,
    ensures
        winner_of(g1@) == winner_of(g2@),
{
}

} // verus!
