//! Partition of a monitor into labelled cells.

use vstd::arithmetic::div_mod::lemma_fundamental_div_mod;
use vstd::arithmetic::div_mod::lemma_fundamental_div_mod_converse;
use vstd::prelude::*;

verus! {

/// Largest number of cells a grid can hold: one per two-symbol label.
pub const MAX_CELLS: u64 = 676;

/// Number of symbols in the label alphabet.
pub const ALPHABET_LEN: usize = 26;

/// The home-row symbols, used first because they are the easiest to type.
pub open spec fn priority_symbols() -> Seq<char> {
    seq!['a', 's', 'd', 'f', 'g', 'h', 'j', 'k', 'l']
}

/// The remaining lowercase letters, in the order they are used.
pub open spec fn secondary_symbols() -> Seq<char> {
    seq!['b', 'c', 'e', 'i', 'm', 'n', 'o', 'p', 'q', 'r', 't', 'u', 'v', 'w', 'x', 'y', 'z']
}

/// The label alphabet: priority symbols followed by secondary symbols.
pub open spec fn alphabet() -> Seq<char> {
    priority_symbols() + secondary_symbols()
}

/// The label given to the cell at row-major index `i`.
pub open spec fn label_at(i: int) -> Seq<char> {
    seq![alphabet()[i / 26], alphabet()[i % 26]]
}

/// The lowercase Latin letters in order.
pub open spec fn latin() -> Seq<char> {
    seq![
        'a', 'b', 'c', 'd', 'e', 'f', 'g', 'h', 'i', 'j', 'k', 'l', 'm',
        'n', 'o', 'p', 'q', 'r', 's', 't', 'u', 'v', 'w', 'x', 'y', 'z',
    ]
}

/// The two-letter string at position `e` of the 676 in lexicographic order.
pub open spec fn latin_pair(e: int) -> Seq<char> {
    seq![latin()[e / 26], latin()[e % 26]]
}

/// Strict lexicographic order on strings, comparing characters by code point.
pub open spec fn lex_lt(a: Seq<char>, b: Seq<char>) -> bool
    decreases a.len(),
{
    if a.len() == 0 {
        b.len() > 0
    } else if b.len() == 0 {
        false
    } else {
        a[0] < b[0] || (a[0] == b[0] && lex_lt(a.drop_first(), b.drop_first()))
    }
}

/// Why a grid could not be built.
#[derive(Debug, Clone, Copy, PartialEq, Eq, Structural)]
pub enum GridError {
    /// `rows * cols` exceeds the number of two-symbol labels.
    TooManyCells { cells: u64 },
}

/// The alphabet holds 26 distinct lowercase letters.
pub proof fn lemma_alphabet_distinct()
    ensures
        alphabet().len() == 26,
        forall|i: int, j: int|
            0 <= i < 26 && 0 <= j < 26 && i != j ==> alphabet()[i] != alphabet()[j],
        forall|k: int| 0 <= k < 26 ==> 'a' <= #[trigger] alphabet()[k] <= 'z',
{
    assert(alphabet() =~= seq![
        'a', 's', 'd', 'f', 'g', 'h', 'j', 'k', 'l', 'b', 'c', 'e', 'i',
        'm', 'n', 'o', 'p', 'q', 'r', 't', 'u', 'v', 'w', 'x', 'y', 'z',
    ]);
}

/// The letter at position `t` of `latin()` has code point `'a' + t`.
proof fn lemma_latin()
    ensures
        latin().len() == 26,
        forall|t: int| 0 <= t < 26 ==> #[trigger] latin()[t] as int == 'a' as int + t,
{
}

/// Two-letter strings come in lexicographic order of their positions.
proof fn lemma_latin_pair_ordered(e1: int, e2: int)
    requires
        0 <= e1 < e2 < MAX_CELLS,
    ensures
        lex_lt(latin_pair(e1), latin_pair(e2)),
{
    lemma_latin();
    let (a, b) = (latin_pair(e1), latin_pair(e2));
    assert(a.drop_first() =~= seq![latin()[e1 % 26]]);
    assert(b.drop_first() =~= seq![latin()[e2 % 26]]);
    assert(a.drop_first().drop_first().len() == 0);
    if e1 / 26 == e2 / 26 {
        assert(e1 % 26 < e2 % 26);
        assert(lex_lt(a.drop_first(), b.drop_first()));
    } else {
        assert(e1 / 26 < e2 / 26) by {
            vstd::arithmetic::div_mod::lemma_div_is_ordered(e1, e2, 26);
        }
    }
}

/// The position of a two-letter string in lexicographic order.
spec fn latin_position(s: Seq<char>) -> int {
    (s[0] as int - 'a' as int) * 26 + (s[1] as int - 'a' as int)
}

/// A label is the two-letter string at its position.
proof fn lemma_label_is_latin_pair(i: int)
    requires
        0 <= i < MAX_CELLS,
    ensures
        0 <= latin_position(label_at(i)) < MAX_CELLS,
        latin_pair(latin_position(label_at(i))) == label_at(i),
{
    lemma_alphabet_distinct();
    lemma_latin();
    let s = label_at(i);
    let t0 = s[0] as int - 'a' as int;
    let t1 = s[1] as int - 'a' as int;
    assert(0 <= i / 26 < 26 && 0 <= i % 26 < 26);
    assert(0 <= t0 < 26 && 0 <= t1 < 26);
    lemma_fundamental_div_mod_converse(latin_position(s), 26, t0, t1);
    assert(latin()[t0] as int == s[0] as int);
    assert(latin()[t1] as int == s[1] as int);
    assert(latin_pair(latin_position(s)) =~= s);
}

/// Two cells below the capacity never share a label.
pub proof fn lemma_label_injective(i: int, j: int)
    requires
        0 <= i < MAX_CELLS,
        0 <= j < MAX_CELLS,
        label_at(i) == label_at(j),
    ensures
        i == j,
{
    lemma_alphabet_distinct();
    assert(label_at(i)[0] == label_at(j)[0]);
    assert(label_at(i)[1] == label_at(j)[1]);
    assert(i / 26 == j / 26);
    assert(i % 26 == j % 26);
}

/// The product of two `u32` values fits in a `u64`.
proof fn lemma_product_fits(a: u32, b: u32)
    ensures
        0 <= a * b <= u64::MAX,
{
    assert(0 <= a * b <= u32::MAX as int * u32::MAX as int) by (nonlinear_arith)
        requires
            0 <= a <= u32::MAX,
            0 <= b <= u32::MAX,
    ;
}

/// The alphabet as a string.
fn alphabet_string() -> (r: String)
    ensures
        r@ == alphabet(),
{
    proof {
        reveal_strlit("asdfghjkl");
        reveal_strlit("bceimnopqrtuvwxyz");
    }
    let r = String::from_str("asdfghjkl").concat("bceimnopqrtuvwxyz");
    assert(r@ =~= alphabet());
    r
}

/// The label made of the alphabet's symbols at `first` and `second`.
fn make_label(letters: &str, first: usize, second: usize) -> (r: String)
    requires
        letters@ == alphabet(),
        first < ALPHABET_LEN,
        second < ALPHABET_LEN,
    ensures
        r@ == seq![alphabet()[first as int], alphabet()[second as int]],
{
    proof {
        lemma_alphabet_distinct();
    }
    let a = letters.substring_char(first, first + 1);
    let b = letters.substring_char(second, second + 1);
    let r = String::from_str(a).concat(b);
    assert(r@ =~= seq![alphabet()[first as int], alphabet()[second as int]]);
    r
}

/// The position of `c` in the alphabet, if it is one of its symbols.
fn symbol_index(letters: &str, c: char) -> (r: Option<usize>)
    requires
        letters@ == alphabet(),
    ensures
        r matches Some(k) ==> k < ALPHABET_LEN && alphabet()[k as int] == c,
        r is None ==> forall|k: int| 0 <= k < ALPHABET_LEN ==> alphabet()[k] != c,
{
    proof {
        lemma_alphabet_distinct();
    }
    let mut k: usize = 0;
    while k < ALPHABET_LEN
        invariant
            letters@ == alphabet(),
            alphabet().len() == ALPHABET_LEN,
            k <= ALPHABET_LEN,
            forall|j: int| 0 <= j < k ==> alphabet()[j] != c,
        decreases ALPHABET_LEN - k,
    {
        if letters.get_char(k) == c {
            return Some(k);
        }
        k += 1;
    }
    None
}

/// Generate the labels of a `rows` by `cols` grid in row-major order.
///
/// The label at index `i` pairs the alphabet's symbol `i / 26` with its symbol
/// `i % 26`. A grid of more than 676 cells is refused before any label is made.
pub fn generate_letter_labels(rows: u32, cols: u32) -> (r: Result<Vec<String>, GridError>)
    ensures
        r is Err <==> rows * cols > MAX_CELLS,
        r is Err ==> r == Err::<Vec<String>, GridError>(
            GridError::TooManyCells { cells: (rows * cols) as u64 },
        ),
        r matches Ok(v) ==> v.len() == rows * cols && forall|i: int|
            0 <= i < v.len() ==> (#[trigger] v[i])@ == label_at(i),
{
    proof {
        lemma_product_fits(rows, cols);
    }
    let total_cells: u64 = rows as u64 * cols as u64;
    if total_cells > MAX_CELLS {
        return Err(GridError::TooManyCells { cells: total_cells });
    }
    let letters = alphabet_string();
    let total: usize = total_cells as usize;
    let mut labels: Vec<String> = Vec::with_capacity(total);
    let mut i: usize = 0;
    while i < total
        invariant
            total == rows * cols,
            total <= MAX_CELLS,
            letters@ == alphabet(),
            i <= total,
            labels.len() == i,
            forall|j: int| 0 <= j < i ==> (#[trigger] labels[j])@ == label_at(j),
        decreases total - i,
    {
        let label = make_label(letters.as_str(), i / ALPHABET_LEN, i % ALPHABET_LEN);
        labels.push(label);
        i += 1;
    }
    Ok(labels)
}

/// The coordinates and dimensions of a grid cell, in pixels.
#[derive(Debug, Clone, Copy, PartialEq, Eq, Structural)]
pub struct CellCoordinates {
    /// X coordinate of the top-left corner.
    pub x: u32,
    /// Y coordinate of the top-left corner.
    pub y: u32,
    /// Width of the cell.
    pub width: u32,
    /// Height of the cell.
    pub height: u32,
}

impl CellCoordinates {
    /// The center point of the cell, the target of a mouse click.
    pub fn center(&self) -> (r: (u32, u32))
        requires
            self.x + self.width / 2 <= u32::MAX,
            self.y + self.height / 2 <= u32::MAX,
        ensures
            r.0 == self.x + self.width / 2,
            r.1 == self.y + self.height / 2,
    {
        (self.x + self.width / 2, self.y + self.height / 2)
    }
}

/// One cell of a grid.
#[derive(Debug)]
pub struct GridCell {
    /// Two-symbol label of this cell, such as "aa" or "sd".
    pub label: String,
    /// Coordinates and dimensions of the cell.
    pub coordinates: CellCoordinates,
    /// Grid position as (row, column).
    pub grid_position: (u32, u32),
}

/// A monitor partitioned into `rows * cols` labelled cells.
#[derive(Debug)]
pub struct Grid {
    /// Number of rows.
    pub rows: u32,
    /// Number of columns.
    pub cols: u32,
    /// Width of the monitor in pixels.
    pub monitor_width: u32,
    /// Height of the monitor in pixels.
    pub monitor_height: u32,
    /// The cells in row-major order; the cell at index `i` has label `label_at(i)`.
    cells: Vec<GridCell>,
}

/// The rectangle of the cell at (`row`, `col`) of a `rows` by `cols` grid on a
/// `width` by `height` monitor.
pub open spec fn cell_rect(
    row: int,
    col: int,
    rows: u32,
    cols: u32,
    width: u32,
    height: u32,
) -> CellCoordinates {
    CellCoordinates {
        x: (col * (width / cols) as int) as u32,
        y: (row * (height / rows) as int) as u32,
        width: (width / cols) as u32,
        height: (height / rows) as u32,
    }
}

impl Clone for GridCell {
    fn clone(&self) -> (r: GridCell)
        ensures
            r == *self,
    {
        GridCell {
            label: self.label.clone(),
            coordinates: self.coordinates,
            grid_position: self.grid_position,
        }
    }
}

impl GridCell {
    /// This is the cell at row-major index `i` of a `rows` by `cols` grid on a
    /// `width` by `height` monitor.
    pub open spec fn is_cell_at(
        &self,
        i: int,
        rows: u32,
        cols: u32,
        width: u32,
        height: u32,
    ) -> bool {
        &&& self.label@ == label_at(i)
        &&& self.grid_position == ((i / cols as int) as u32, (i % cols as int) as u32)
        &&& self.coordinates == cell_rect(i / cols as int, i % cols as int, rows, cols, width, height)
    }
}

/// `k + 1` slices of `total / n` fit in `total` when `k < n`.
proof fn lemma_slice_fits(k: int, n: int, total: int)
    requires
        0 <= k < n,
        0 <= total,
    ensures
        0 <= k * (total / n),
        k * (total / n) + total / n <= total,
{
    lemma_fundamental_div_mod(total, n);
    let q = total / n;
    assert(0 <= q) by {
        vstd::arithmetic::div_mod::lemma_div_pos_is_pos(total, n);
    }
    assert(0 <= k * q && k * q + q <= n * q) by (nonlinear_arith)
        requires
            0 <= k < n,
            0 <= q,
    ;
    assert(n * q <= total) by {
        assert(0 <= total % n);
    }
}

/// Index `row * cols + col` of a cell lies in the grid and gives back its row and column.
proof fn lemma_row_major(row: int, col: int, rows: int, cols: int)
    requires
        0 <= row < rows,
        0 <= col < cols,
    ensures
        0 <= row * cols + col < rows * cols,
        (row * cols + col) / cols == row,
        (row * cols + col) % cols == col,
{
    assert(0 <= row * cols + col < rows * cols) by (nonlinear_arith)
        requires
            0 <= row < rows,
            0 <= col < cols,
    ;
    lemma_fundamental_div_mod_converse(row * cols + col, cols, row, col);
}

/// What a grid holds: its shape, its monitor and its cells in row-major order.
pub struct GridView {
    /// Number of rows.
    pub rows: u32,
    /// Number of columns.
    pub cols: u32,
    /// Width of the monitor in pixels.
    pub monitor_width: u32,
    /// Height of the monitor in pixels.
    pub monitor_height: u32,
    /// The cells in row-major order.
    pub cells: Seq<GridCell>,
}

impl GridView {
    /// The grid holds one cell per index below `rows * cols`, each at its place.
    pub open spec fn wf(self) -> bool {
        &&& 1 <= self.rows
        &&& 1 <= self.cols
        &&& self.rows * self.cols <= MAX_CELLS
        &&& self.cells.len() == self.rows * self.cols
        &&& forall|i: int|
            0 <= i < self.cells.len() ==> #[trigger] self.cells[i].is_cell_at(
                i,
                self.rows,
                self.cols,
                self.monitor_width,
                self.monitor_height,
            )
    }

    /// The cells' labels, in row-major order.
    pub open spec fn labels(self) -> Seq<Seq<char>> {
        self.cells.map_values(|c: GridCell| c.label@)
    }

    /// `label` is the label of one of the cells.
    pub open spec fn has_label(self, label: Seq<char>) -> bool {
        exists|i: int| 0 <= i < self.cells.len() && label_at(i) == label
    }
}

impl View for Grid {
    type V = GridView;

    closed spec fn view(&self) -> GridView {
        GridView {
            rows: self.rows,
            cols: self.cols,
            monitor_width: self.monitor_width,
            monitor_height: self.monitor_height,
            cells: self.cells@,
        }
    }
}

impl Grid {
    /// The grid is well formed.
    pub open spec fn wf(&self) -> bool {
        self@.wf()
    }

    /// The row-major index of the cell labelled `label`, if there is one.
    fn label_index(&self, label: &str) -> (r: Option<usize>)
        requires
            self.wf(),
        ensures
            r matches Some(i) ==> i < self@.cells.len() && label_at(i as int) == label@,
            r is None ==> !self@.has_label(label@),
    {
        proof {
            lemma_alphabet_distinct();
        }
        if label.unicode_len() != 2 {
            proof {
                if self@.has_label(label@) {
                    self.lemma_label_symbols(label@);
                }
            }
            return None;
        }
        let letters = alphabet_string();
        let first = label.get_char(0);
        let second = label.get_char(1);
        let p = match symbol_index(letters.as_str(), first) {
            Some(p) => p,
            None => {
                proof {
                    if self@.has_label(label@) {
                        self.lemma_label_symbols(label@);
                    }
                }
                return None;
            },
        };
        let q = match symbol_index(letters.as_str(), second) {
            Some(q) => q,
            None => {
                proof {
                    if self@.has_label(label@) {
                        self.lemma_label_symbols(label@);
                    }
                }
                return None;
            },
        };
        let i = p * ALPHABET_LEN + q;
        proof {
            lemma_fundamental_div_mod_converse(i as int, 26, p as int, q as int);
            assert(label_at(i as int) =~= label@);
        }
        if i < self.cells.len() {
            Some(i)
        } else {
            proof {
                if self@.has_label(label@) {
                    let j = choose|j: int| 0 <= j < self@.cells.len() && label_at(j) == label@;
                    lemma_label_injective(i as int, j);
                }
            }
            None
        }
    }

    /// A label of the grid is two symbols of the alphabet.
    proof fn lemma_label_symbols(&self, label: Seq<char>)
        requires
            self.wf(),
            self@.has_label(label),
        ensures
            label.len() == 2,
            exists|k: int| 0 <= k < ALPHABET_LEN && alphabet()[k] == label[0],
            exists|k: int| 0 <= k < ALPHABET_LEN && alphabet()[k] == label[1],
    {
        let j = choose|j: int| 0 <= j < self@.cells.len() && label_at(j) == label;
        assert(0 <= j / 26 < 26 && 0 <= j % 26 < 26);
        assert(alphabet()[j / 26] == label[0]);
        assert(alphabet()[j % 26] == label[1]);
    }

    /// Get a cell by its label; the match is exact and case-sensitive.
    pub fn get_cell(&self, label: &str) -> (r: Option<&GridCell>)
        requires
            self.wf(),
        ensures
            r is Some <==> self@.has_label(label@),
            forall|i: int|
                0 <= i < self@.cells.len() && label_at(i) == label@ ==> (r matches Some(c) && *c
                    == self@.cells[i]),
    {
        match self.label_index(label) {
            Some(i) => {
                proof {
                    assert forall|j: int|
                        0 <= j < self@.cells.len() && label_at(j) == label@ implies j == i by {
                        lemma_label_injective(i as int, j);
                    }
                }
                Some(&self.cells[i])
            },
            None => None,
        }
    }

    /// Whether a cell of the grid has this label.
    pub fn has_label(&self, label: &str) -> (r: bool)
        requires
            self.wf(),
        ensures
            r == self@.has_label(label@),
    {
        self.label_index(label).is_some()
    }

    /// All labels of the grid, in lexicographic order.
    pub fn get_all_labels(&self) -> (r: Vec<String>)
        requires
            self.wf(),
        ensures
            forall|i: int, j: int| 0 <= i < j < r.len() ==> lex_lt(r[i]@, r[j]@),
            forall|s: Seq<char>|
                (exists|k: int| 0 <= k < r.len() && r[k]@ == s) <==> self@.has_label(s),
    {
        proof {
            reveal_strlit("abcdefghijklmnopqrstuvwxyz");
            lemma_latin();
        }
        let letters = "abcdefghijklmnopqrstuvwxyz";
        assert(letters@ =~= latin());
        let mut labels: Vec<String> = Vec::new();
        let ghost mut positions: Seq<int> = Seq::empty();
        let total: usize = MAX_CELLS as usize;
        let mut e: usize = 0;
        while e < total
            invariant
                self.wf(),
                letters@ == latin(),
                total == MAX_CELLS,
                e <= total,
                positions.len() == labels.len(),
                forall|k: int|
                    0 <= k < labels.len() ==> (#[trigger] labels[k])@ == latin_pair(positions[k]),
                forall|k: int| 0 <= k < positions.len() ==> 0 <= #[trigger] positions[k] < e,
                forall|k1: int, k2: int|
                    0 <= k1 < k2 < labels.len() ==> positions[k1] < positions[k2],
                forall|p: int|
                    0 <= p < e ==> (self@.has_label(#[trigger] latin_pair(p)) <==> exists|k: int|
                        0 <= k < positions.len() && positions[k] == p),
            decreases total - e,
        {
            let first = letters.substring_char(e / 26, e / 26 + 1);
            let second = letters.substring_char(e % 26, e % 26 + 1);
            let candidate = String::from_str(first).concat(second);
            assert(candidate@ =~= latin_pair(e as int));
            let ghost before = positions;
            if self.has_label(candidate.as_str()) {
                labels.push(candidate);
                proof {
                    positions = positions.push(e as int);
                    assert(positions[positions.len() - 1] == e);
                }
            }
            proof {
                assert(positions == before || positions == before.push(e as int));
                assert forall|p: int| 0 <= p < e + 1 implies (self@.has_label(
                    #[trigger] latin_pair(p),
                ) <==> exists|k: int| 0 <= k < positions.len() && positions[k] == p) by {
                    if p < e {
                        if self@.has_label(latin_pair(p)) {
                            let k = choose|k: int| 0 <= k < before.len() && before[k] == p;
                            assert(0 <= k < positions.len() && positions[k] == p);
                        }
                        if exists|k: int| 0 <= k < positions.len() && positions[k] == p {
                            let k = choose|k: int| 0 <= k < positions.len() && positions[k] == p;
                            assert(k < before.len());
                            assert(before[k] == p);
                        }
                    } else {
                        if self@.has_label(latin_pair(p)) {
                            assert(positions[positions.len() - 1] == p);
                        }
                        if exists|k: int| 0 <= k < positions.len() && positions[k] == p {
                            let k = choose|k: int| 0 <= k < positions.len() && positions[k] == p;
                            assert(k == before.len());
                        }
                    }
                }
            }
            e += 1;
        }
        proof {
            assert forall|i: int, j: int| 0 <= i < j < labels.len() implies lex_lt(
                labels[i]@,
                labels[j]@,
            ) by {
                assert(labels[i]@ == latin_pair(positions[i]));
                assert(labels[j]@ == latin_pair(positions[j]));
                lemma_latin_pair_ordered(positions[i], positions[j]);
            }
            assert forall|s: Seq<char>|
                (exists|k: int| 0 <= k < labels.len() && labels[k]@ == s) <==> self@.has_label(s) by {
                if exists|k: int| 0 <= k < labels.len() && labels[k]@ == s {
                    let k = choose|k: int| 0 <= k < labels.len() && labels[k]@ == s;
                    assert(labels[k]@ == latin_pair(positions[k]));
                }
                if self@.has_label(s) {
                    let i = choose|i: int| 0 <= i < self@.cells.len() && label_at(i) == s;
                    lemma_label_is_latin_pair(i);
                    let p = latin_position(s);
                    assert(self@.has_label(latin_pair(p)));
                    let k = choose|k: int| 0 <= k < positions.len() && positions[k] == p;
                    assert(labels[k]@ == s);
                }
            }
        }
        labels
    }

    /// The number of cells in the grid.
    pub fn total_cells(&self) -> (r: usize)
        ensures
            r == self@.cells.len(),
            self.wf() ==> r == self@.rows * self@.cols,
    {
        self.cells.len()
    }

    /// Build the grid of `rows` by `cols` cells on a `monitor_width` by
    /// `monitor_height` monitor.
    ///
    /// Cells are produced row by row, and the cell at row-major index `i` gets
    /// the label `label_at(i)`. A grid of more than 676 cells is refused.
    pub fn new(rows: u32, cols: u32, monitor_width: u32, monitor_height: u32) -> (r: Result<
        Grid,
        GridError,
    >)
        requires
            rows >= 1,
            cols >= 1,
        ensures
            r is Err <==> rows * cols > MAX_CELLS,
            r is Err ==> r == Err::<Grid, GridError>(
                GridError::TooManyCells { cells: (rows * cols) as u64 },
            ),
            r matches Ok(g) ==> {
                &&& g@.rows == rows
                &&& g@.cols == cols
                &&& g@.monitor_width == monitor_width
                &&& g@.monitor_height == monitor_height
                &&& g.wf()
            },
    {
        let labels = match generate_letter_labels(rows, cols) {
            Ok(labels) => labels,
            Err(e) => return Err(e),
        };
        let cell_width = monitor_width / cols;
        let cell_height = monitor_height / rows;
        let mut cells: Vec<GridCell> = Vec::with_capacity(labels.len());
        let mut label_index: usize = 0;
        let mut row: u32 = 0;
        while row < rows
            invariant
                labels.len() == rows * cols,
                forall|j: int| 0 <= j < labels.len() ==> (#[trigger] labels[j])@ == label_at(j),
                1 <= rows,
                1 <= cols,
                rows * cols <= MAX_CELLS,
                cell_width == monitor_width / cols,
                cell_height == monitor_height / rows,
                row <= rows,
                label_index == row * cols,
                cells.len() == label_index,
                forall|j: int|
                    0 <= j < cells.len() ==> #[trigger] cells[j].is_cell_at(
                        j,
                        rows,
                        cols,
                        monitor_width,
                        monitor_height,
                    ),
            decreases rows - row,
        {
            let mut col: u32 = 0;
            while col < cols
                invariant
                    labels.len() == rows * cols,
                    forall|j: int| 0 <= j < labels.len() ==> (#[trigger] labels[j])@ == label_at(j),
                    1 <= rows,
                    1 <= cols,
                    rows * cols <= MAX_CELLS,
                    cell_width == monitor_width / cols,
                    cell_height == monitor_height / rows,
                    row < rows,
                    col <= cols,
                    label_index == row * cols + col,
                    cells.len() == label_index,
                    forall|j: int|
                        0 <= j < cells.len() ==> #[trigger] cells[j].is_cell_at(
                            j,
                            rows,
                            cols,
                            monitor_width,
                            monitor_height,
                        ),
                decreases cols - col,
            {
                proof {
                    lemma_row_major(row as int, col as int, rows as int, cols as int);
                    lemma_slice_fits(col as int, cols as int, monitor_width as int);
                    lemma_slice_fits(row as int, rows as int, monitor_height as int);
                }
                let label = labels[label_index].clone();
                let coordinates = CellCoordinates {
                    x: col * cell_width,
                    y: row * cell_height,
                    width: cell_width,
                    height: cell_height,
                };
                let cell = GridCell { label, coordinates, grid_position: (row, col) };
                cells.push(cell);
                label_index += 1;
                col += 1;
            }
            proof {
                assert(row * cols + cols == (row + 1) * cols) by (nonlinear_arith);
            }
            row += 1;
        }
        Ok(Grid { rows, cols, monitor_width, monitor_height, cells })
    }
}

/// In a well-formed grid no two cells share a label, the labels form a set of
/// exactly `rows * cols` members, and that set is the grid's labels.
pub proof fn law_labels_unique(g: Grid)
    requires
        g.wf(),
    ensures
        g@.labels().no_duplicates(),
        g@.labels().to_set().len() == g@.rows * g@.cols,
        forall|s: Seq<char>| g@.labels().to_set().contains(s) <==> g@.has_label(s),
{
    let v = g@;
    let labels = v.labels();
    assert forall|i: int, j: int|
        0 <= i < labels.len() && 0 <= j < labels.len() && i != j implies labels[i] != labels[j] by {
        assert(v.cells[i].is_cell_at(i, v.rows, v.cols, v.monitor_width, v.monitor_height));
        assert(v.cells[j].is_cell_at(j, v.rows, v.cols, v.monitor_width, v.monitor_height));
        if labels[i] == labels[j] {
            lemma_label_injective(i, j);
        }
    }
    labels.unique_seq_to_set();
    assert forall|s: Seq<char>| labels.to_set().contains(s) <==> v.has_label(s) by {
        if labels.to_set().contains(s) {
            let i = choose|i: int| 0 <= i < labels.len() && labels[i] == s;
            assert(v.cells[i].is_cell_at(i, v.rows, v.cols, v.monitor_width, v.monitor_height));
        }
        if v.has_label(s) {
            let i = choose|i: int| 0 <= i < v.cells.len() && label_at(i) == s;
            assert(v.cells[i].is_cell_at(i, v.rows, v.cols, v.monitor_width, v.monitor_height));
            assert(labels[i] == s);
        }
    }
}

/// Every cell of a well-formed grid lies within the monitor.
pub proof fn law_cells_within_monitor(g: Grid, i: int)
    requires
        g.wf(),
        0 <= i < g@.cells.len(),
    ensures
        g@.cells[i].coordinates.x + g@.cells[i].coordinates.width <= g@.monitor_width,
        g@.cells[i].coordinates.y + g@.cells[i].coordinates.height <= g@.monitor_height,
{
    let v = g@;
    assert(v.cells[i].is_cell_at(i, v.rows, v.cols, v.monitor_width, v.monitor_height));
    let (rows, cols) = (v.rows as int, v.cols as int);
    assert(0 <= i < rows * cols);
    assert(0 <= i / cols < rows) by {
        lemma_fundamental_div_mod(i, cols);
        vstd::arithmetic::div_mod::lemma_div_pos_is_pos(i, cols);
        let q = i / cols;
        assert(q < rows) by (nonlinear_arith)
            requires
                i == cols * q + i % cols,
                0 <= i % cols,
                i < rows * cols,
                0 < cols,
        ;
    }
    lemma_slice_fits(i % cols, cols, v.monitor_width as int);
    lemma_slice_fits(i / cols, rows, v.monitor_height as int);
}

/// Looking a label up finds a cell exactly when the label is one of the grid's,
/// and then exactly one cell carries it.
pub proof fn law_lookup_round_trip(g: Grid, label: Seq<char>)
    requires
        g.wf(),
    ensures
        g@.has_label(label) <==> exists|i: int|
            0 <= i < g@.cells.len() && (#[trigger] g@.cells[i]).label@ == label,
        forall|i: int, j: int|
            0 <= i < g@.cells.len() && 0 <= j < g@.cells.len() && g@.cells[i].label@ == label
                && g@.cells[j].label@ == label ==> i == j,
        forall|i: int|
            0 <= i < g@.cells.len() && label_at(i) == label ==> (#[trigger] g@.cells[i]).label@
                == label,
{
    let v = g@;
    assert forall|i: int| 0 <= i < v.cells.len() implies (#[trigger] v.cells[i]).label@ == label_at(
        i,
    ) by {
        assert(v.cells[i].is_cell_at(i, v.rows, v.cols, v.monitor_width, v.monitor_height));
    }
    assert forall|i: int, j: int|
        0 <= i < v.cells.len() && 0 <= j < v.cells.len() && v.cells[i].label@ == label
            && v.cells[j].label@ == label implies i == j by {
        lemma_label_injective(i, j);
    }
    if v.has_label(label) {
        let i = choose|i: int| 0 <= i < v.cells.len() && label_at(i) == label;
        assert(v.cells[i].label@ == label);
    }
}

} // verus!
